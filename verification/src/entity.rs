//! Entity identity, archetype tags, component kinds and the plain values
//! the components hold.
//!
//! Geometry is fixed point: a tile is `SUBCELL` sub-units across, so
//! positions move smoothly while collision works on whole grid cells.

use vstd::prelude::*;

verus! {

/// An opaque, strictly increasing entity id; never reused.
pub type EntityId = u64;

/// A key press, as the raw key code the window layer delivers.
pub type Key = i32;

/// Sub-units per grid tile.
pub const SUBCELL: i64 = 1000;

/// The immutable archetype tag fixed at spawn: it selects which external
/// behavior functions run for an entity, and the core does not interpret it
/// beyond that.
#[derive(Debug, Clone, Copy, PartialEq, Eq, Structural)]
pub enum Entities {
    Basic,
    Background,
    Wall,
    SnakeHead,
    SnakeBody,
    Fruit,
    Enemy,
    Fireball,
    Trigger,
    Swoop,
    Text,
    Logic,
}

impl Default for Entities {
    fn default() -> (r: Self)
        ensures
            r == Entities::Basic,
    {
        Entities::Basic
    }
}

/// The closed set of component kinds an entity can be spawned with.
#[derive(Debug, Clone, Copy, PartialEq, Eq, Structural)]
pub enum Components {
    Position,
    Direction,
    Collider,
    Input,
    BodyLength,
    SelfDestruct,
    Scale,
    Timer,
    Spawner,
    Animation,
    Color,
    Speed,
    Properties,
    Sound,
}

impl Entities {
    /// Per-tick behavior dispatch: the total mapping from archetype tag to
    /// tick behavior. The behavior library is an external collaborator and
    /// a tag with no registered behavior is a no-op, not a fault; no
    /// behaviors are registered in the core, so every tag is a no-op here.
    pub fn tick(self, dt: u64, entity: EntityView) {
        match self {
            _ => {
                let _unused: (u64, EntityView) = (dt, entity);
            },
        }
    }
}

/// A 2D vector in fixed-point sub-units.
#[derive(Debug, Clone, Copy, PartialEq, Eq, Structural)]
pub struct Vec2i {
    pub x: i64,
    pub y: i64,
}

impl Vec2i {
    pub fn new(x: i64, y: i64) -> (v: Self)
        ensures
            v == (Vec2i { x, y }),
    {
        Vec2i { x, y }
    }
}

impl Default for Vec2i {
    fn default() -> (v: Self)
        ensures
            v == (Vec2i { x: 0, y: 0 }),
    {
        Vec2i { x: 0, y: 0 }
    }
}

/// A 3D position in fixed-point sub-units; `z` is depth and plays no part
/// in collision.
#[derive(Debug, Clone, Copy, PartialEq, Eq, Structural)]
pub struct Position {
    pub x: i64,
    pub y: i64,
    pub z: i64,
}

impl Position {
    pub fn new(x: i64, y: i64, z: i64) -> (p: Self)
        ensures
            p == (Position { x, y, z }),
    {
        Position { x, y, z }
    }

    /// The position at the origin corner of grid cell (cx, cy).
    pub fn from_cells(cx: i64, cy: i64, cz: i64) -> (p: Self)
        requires
            -9_000_000_000_000_000 <= cx <= 9_000_000_000_000_000,
            -9_000_000_000_000_000 <= cy <= 9_000_000_000_000_000,
            -9_000_000_000_000_000 <= cz <= 9_000_000_000_000_000,
        ensures
            p == (Position { x: (cx * SUBCELL) as i64, y: (cy * SUBCELL) as i64, z: (cz * SUBCELL) as i64 }),
    {
        Position { x: cx * SUBCELL, y: cy * SUBCELL, z: cz * SUBCELL }
    }
}

impl Default for Position {
    fn default() -> (p: Self)
        ensures
            p == (Position { x: 0, y: 0, z: 0 }),
    {
        Position { x: 0, y: 0, z: 0 }
    }
}

/// The grid cell a coordinate falls in: floor division by `SUBCELL`.
pub open spec fn spec_cell_coord(x: int) -> int {
    x / (SUBCELL as int)
}

/// The grid cell a position falls in; depth is ignored.
pub open spec fn spec_cell_of(p: Position) -> (int, int) {
    (spec_cell_coord(p.x as int), spec_cell_coord(p.y as int))
}

/// Floor division of a coordinate by the sub-unit scale.
pub fn cell_coord(x: i64) -> (r: i64)
    ensures
        r == spec_cell_coord(x as int),
{
    if x >= 0 {
        let q = (x as u64) / (SUBCELL as u64);
        proof {
            vstd::arithmetic::div_mod::lemma_fundamental_div_mod(x as u64 as int, SUBCELL as int);
            vstd::arithmetic::div_mod::lemma_fundamental_div_mod_converse(
                x as int,
                SUBCELL as int,
                q as int,
                x as u64 as int % (SUBCELL as int),
            );
        }
        q as i64
    } else {
        let y = (-(x + 1)) as u64;
        let m = y / (SUBCELL as u64);
        let r = -(m as i64) - 1;
        proof {
            let d = SUBCELL as int;
            vstd::arithmetic::div_mod::lemma_fundamental_div_mod(y as int, d);
            let yr = y as int % d;
            assert(y as int == (m as int) * d + yr);
            assert(x as int == (-(m as int) - 1) * d + (d - 1 - yr)) by (nonlinear_arith)
                requires
                    y as int == (m as int) * d + yr,
                    x as int == -(y as int) - 1,
                    d == 1000;
            vstd::arithmetic::div_mod::lemma_fundamental_div_mod_converse(
                x as int,
                d,
                -(m as int) - 1,
                d - 1 - yr,
            );
        }
        r
    }
}

/// The grid cell a position falls in.
pub fn cell_of(p: Position) -> (c: (i64, i64))
    ensures
        c.0 == spec_cell_of(p).0,
        c.1 == spec_cell_of(p).1,
{
    (cell_coord(p.x), cell_coord(p.y))
}

/// A movement direction: one of the four grid directions, none, or an
/// arbitrary fixed-point vector for movers that are not grid-aligned.
#[derive(Debug, Clone, Copy, PartialEq, Eq, Structural)]
pub enum Direction {
    Still,
    Up,
    Down,
    Left,
    Right,
    Raw(Vec2i),
}

impl Default for Direction {
    fn default() -> (r: Self)
        ensures
            r == Direction::Still,
    {
        Direction::Still
    }
}

impl Direction {
    /// The opposite direction; a raw vector is negated componentwise.
    pub fn reverse(self) -> (r: Self)
        requires
            self matches Direction::Raw(v) ==> v.x > i64::MIN && v.y > i64::MIN,
        ensures
            r == match self {
                Direction::Still => Direction::Still,
                Direction::Up => Direction::Down,
                Direction::Down => Direction::Up,
                Direction::Left => Direction::Right,
                Direction::Right => Direction::Left,
                Direction::Raw(v) => Direction::Raw(Vec2i { x: (-v.x) as i64, y: (-v.y) as i64 }),
            },
    {
        match self {
            Direction::Still => Direction::Still,
            Direction::Up => Direction::Down,
            Direction::Down => Direction::Up,
            Direction::Left => Direction::Right,
            Direction::Right => Direction::Left,
            Direction::Raw(v) => Direction::Raw(Vec2i { x: -v.x, y: -v.y }),
        }
    }

    /// The direction a quarter turn clockwise from this one; raw vectors
    /// have no grid-aligned right.
    pub fn right(self) -> (r: Self)
        requires
            !(self matches Direction::Raw(_)),
        ensures
            r == match self {
                Direction::Still => Direction::Still,
                Direction::Up => Direction::Right,
                Direction::Down => Direction::Left,
                Direction::Left => Direction::Up,
                Direction::Right => Direction::Down,
                Direction::Raw(v) => Direction::Raw(v),
            },
    {
        match self {
            Direction::Still => Direction::Still,
            Direction::Up => Direction::Right,
            Direction::Down => Direction::Left,
            Direction::Left => Direction::Up,
            Direction::Right => Direction::Down,
            Direction::Raw(v) => Direction::Raw(v),
        }
    }

    /// One of the four grid directions, drawn at random.
    pub fn random() -> (r: Self)
        ensures
            r == Direction::Up || r == Direction::Down || r == Direction::Right || r
                == Direction::Left,
    {
        let idx = crate::rng::random_below(4);
        if idx == 0 {
            Direction::Up
        } else if idx == 1 {
            Direction::Down
        } else if idx == 2 {
            Direction::Right
        } else {
            Direction::Left
        }
    }

    /// The grid direction with a given unit cell offset; anything but the
    /// five grid offsets is refused.
    pub fn from_offset(v: Vec2i) -> (r: Result<Direction, crate::common::Error>)
        ensures
            r == if v == (Vec2i { x: 0, y: 0 }) {
                Ok::<Direction, crate::common::Error>(Direction::Still)
            } else if v == (Vec2i { x: 0, y: (-1) as i64 }) {
                Ok::<Direction, crate::common::Error>(Direction::Up)
            } else if v == (Vec2i { x: 0, y: 1 }) {
                Ok::<Direction, crate::common::Error>(Direction::Down)
            } else if v == (Vec2i { x: (-1) as i64, y: 0 }) {
                Ok::<Direction, crate::common::Error>(Direction::Left)
            } else if v == (Vec2i { x: 1, y: 0 }) {
                Ok::<Direction, crate::common::Error>(Direction::Right)
            } else {
                Err::<Direction, crate::common::Error>(crate::common::Error::BadDirection)
            },
    {
        if v.x == 0 && v.y == 0 {
            Ok(Direction::Still)
        } else if v.x == 0 && v.y == -1 {
            Ok(Direction::Up)
        } else if v.x == 0 && v.y == 1 {
            Ok(Direction::Down)
        } else if v.x == -1 && v.y == 0 {
            Ok(Direction::Left)
        } else if v.x == 1 && v.y == 0 {
            Ok(Direction::Right)
        } else {
            Err(crate::common::Error::BadDirection)
        }
    }

    /// The unit offset of a grid direction, in whole cells; `Still` and raw
    /// vectors are handled by their own paths.
    pub fn grid_offset(self) -> (r: (i64, i64))
        ensures
            r == match self {
                Direction::Still => (0i64, 0i64),
                Direction::Up => (0i64, -1i64),
                Direction::Down => (0i64, 1i64),
                Direction::Left => (-1i64, 0i64),
                Direction::Right => (1i64, 0i64),
                Direction::Raw(_) => (0i64, 0i64),
            },
    {
        match self {
            Direction::Still => (0, 0),
            Direction::Up => (0, -1),
            Direction::Down => (0, 1),
            Direction::Left => (-1, 0),
            Direction::Right => (1, 0),
            Direction::Raw(_) => (0, 0),
        }
    }
}

/// A 2D scale factor in fixed-point units; (SUBCELL, SUBCELL) is one-to-one.
pub type Scale = Vec2i;

/// A snake body length.
pub type BodyLength = i16;

/// A remaining-lifetime counter.
pub type SelfDestruct = i16;

/// A speed in sub-units per second.
pub type Speed = i64;

/// The closed set of animation states.
#[derive(Debug, Clone, Copy, PartialEq, Eq, Structural)]
pub enum Animation {
    Idle,
    Growing,
}

impl Default for Animation {
    fn default() -> (r: Self)
        ensures
            r == Animation::Idle,
    {
        Animation::Idle
    }
}

/// The input capability: a queue of undelivered key presses and the latest
/// pointer position.
#[derive(Debug, Clone, PartialEq, Eq)]
pub struct Input {
    pub keys: Vec<Key>,
    pub mouse: Vec2i,
}

impl Input {
    pub fn new() -> (r: Self)
        ensures
            r.keys@ == Seq::<Key>::empty(),
            r.mouse == (Vec2i { x: 0, y: 0 }),
    {
        let r = Input { keys: Vec::new(), mouse: Vec2i { x: 0, y: 0 } };
        proof {
            assert(r.keys@ =~= Seq::<Key>::empty());
        }
        r
    }

    /// Queues one key press for later delivery.
    pub fn press(&mut self, key: Key)
        ensures
            final(self).keys@ == old(self).keys@.push(key),
            final(self).mouse == old(self).mouse,
    {
        self.keys.push(key);
    }

    pub fn mouse_move(&mut self, pos: Vec2i)
        ensures
            final(self).mouse == pos,
            final(self).keys@ == old(self).keys@,
    {
        self.mouse = pos;
    }

    /// Takes the oldest undelivered key press, if any.
    pub fn get_key(&mut self) -> (r: Option<Key>)
        ensures
            old(self).keys@.len() == 0 ==> r is None && final(self).keys@ == old(self).keys@,
            old(self).keys@.len() > 0 ==> r == Some(old(self).keys@[0]) && final(self).keys@
                == old(self).keys@.drop_first(),
            final(self).mouse == old(self).mouse,
    {
        if self.keys.len() == 0 {
            None
        } else {
            let k = self.keys.remove(0);
            proof {
                assert(self.keys@ =~= old(self).keys@.drop_first());
            }
            Some(k)
        }
    }

    pub fn get_mouse(&self) -> (r: Vec2i)
        ensures
            r == self.mouse,
    {
        self.mouse
    }
}

/// The faults of §"programming errors": an accessor used against an entity
/// that was never spawned with what the accessor asks for.
#[derive(Debug, Clone, Copy, PartialEq, Eq, Structural)]
pub enum Fault {
    /// A component accessor on an entity that lacks that component kind;
    /// carries the archetype tag and the kind for the diagnostic.
    MissingComponent { tag: Entities, component: Components },
    /// A property read or write against an unbound name.
    MissingProperty,
    /// A property read or write with the wrong expected type.
    PropertyTypeMismatch,
}

/// A short-lived capability bound to one entity id and its archetype tag:
/// the only way behavior code touches component and property data. Views
/// are value types constructed on demand by `EntityManager::view` and must
/// not be kept across a spawn or kill, since the id may go stale; every
/// accessor re-resolves the id, so a stale view only ever reports a fault,
/// never stale data.
#[derive(Debug, Clone, Copy, PartialEq, Eq, Structural)]
pub struct EntityView {
    id: EntityId,
    tag: Entities,
}

impl EntityView {
    /// Views are constructed by the entity manager alone; the constructor
    /// is crate-private so a view always names a directory entry.
    pub(crate) fn make(id: EntityId, tag: Entities) -> (v: Self)
        ensures
            v.id() == id,
            v.which() == tag,
    {
        EntityView { id, tag }
    }

    pub closed spec fn spec_id(&self) -> EntityId {
        self.id
    }

    pub closed spec fn spec_which(&self) -> Entities {
        self.tag
    }

    /// The entity this view is bound to.
    #[verifier::when_used_as_spec(spec_id)]
    pub fn id(&self) -> (r: EntityId)
        ensures
            r == self.spec_id(),
    {
        self.id
    }

    /// The archetype tag, always available.
    #[verifier::when_used_as_spec(spec_which)]
    pub fn which(&self) -> (r: Entities)
        ensures
            r == self.spec_which(),
    {
        self.tag
    }
}

} // verus!
