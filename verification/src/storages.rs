//! One table per component kind, all keyed by entity id.
//!
//! A storage holds an entry for an entity exactly when the entity was
//! declared with that component kind at spawn; entries change value but are
//! never added or removed between spawn and kill.

use vstd::prelude::*;
use crate::entity::{
    spec_cell_of, cell_of, Animation, Components, Direction, EntityId, Input, Key, Position,
    Scale, Speed, Vec2i,
};
use crate::palette::PaletteKey;
use crate::props::PropBag;
use crate::sound::Player;
use crate::table::Table;
use crate::time::Threshold;

verus! {

/// Every component table, one per kind.
pub struct Storages {
    pub positions: Table<Position>,
    pub directions: Table<Direction>,
    pub colliders: Table<bool>,
    pub keyboards: Table<Input>,
    pub body_lengths: Table<i16>,
    pub self_destructs: Table<i16>,
    pub scales: Table<Scale>,
    pub timers: Table<Threshold>,
    pub spawners: Table<bool>,
    pub animations: Table<Animation>,
    pub colors: Table<PaletteKey>,
    pub speeds: Table<Speed>,
    pub properties: Table<PropBag>,
    pub sounds: Table<Player>,
}

impl Storages {
    pub open spec fn wf(&self) -> bool {
        &&& self.positions.wf()
        &&& self.directions.wf()
        &&& self.colliders.wf()
        &&& self.keyboards.wf()
        &&& self.body_lengths.wf()
        &&& self.self_destructs.wf()
        &&& self.scales.wf()
        &&& self.timers.wf()
        &&& self.spawners.wf()
        &&& self.animations.wf()
        &&& self.colors.wf()
        &&& self.speeds.wf()
        &&& self.properties.wf()
        &&& self.sounds.wf()
        &&& forall|id: EntityId| #[trigger] self.properties@.contains_key(id)
            ==> self.properties@[id].wf()
    }

    /// Whether any table holds an entry for `id`.
    pub open spec fn spec_has_entry(&self, id: EntityId) -> bool {
        ||| self.positions@.contains_key(id)
        ||| self.directions@.contains_key(id)
        ||| self.colliders@.contains_key(id)
        ||| self.keyboards@.contains_key(id)
        ||| self.body_lengths@.contains_key(id)
        ||| self.self_destructs@.contains_key(id)
        ||| self.scales@.contains_key(id)
        ||| self.timers@.contains_key(id)
        ||| self.spawners@.contains_key(id)
        ||| self.animations@.contains_key(id)
        ||| self.colors@.contains_key(id)
        ||| self.speeds@.contains_key(id)
        ||| self.properties@.contains_key(id)
        ||| self.sounds@.contains_key(id)
    }

    /// Whether `id`'s entries (or absence of them) are untouched between
    /// two states, in every table.
    pub open spec fn entry_unchanged(&self, other: &Self, id: EntityId) -> bool {
        &&& table_entry_unchanged(self.positions@, other.positions@, id)
        &&& table_entry_unchanged(self.directions@, other.directions@, id)
        &&& table_entry_unchanged(self.colliders@, other.colliders@, id)
        &&& table_entry_unchanged(self.keyboards@, other.keyboards@, id)
        &&& table_entry_unchanged(self.body_lengths@, other.body_lengths@, id)
        &&& table_entry_unchanged(self.self_destructs@, other.self_destructs@, id)
        &&& table_entry_unchanged(self.scales@, other.scales@, id)
        &&& table_entry_unchanged(self.timers@, other.timers@, id)
        &&& table_entry_unchanged(self.spawners@, other.spawners@, id)
        &&& table_entry_unchanged(self.animations@, other.animations@, id)
        &&& table_entry_unchanged(self.colors@, other.colors@, id)
        &&& table_entry_unchanged(self.speeds@, other.speeds@, id)
        &&& table_entry_unchanged(self.properties@, other.properties@, id)
        &&& table_entry_unchanged(self.sounds@, other.sounds@, id)
    }

    /// Whether `id` holds no entry at all: the state before spawn and after
    /// kill.
    pub open spec fn spec_erased(&self, id: EntityId) -> bool {
        !self.spec_has_entry(id)
    }

    pub fn new() -> (r: Self)
        ensures
            r.wf(),
            forall|id: EntityId| r.spec_erased(id),
    {
        Storages {
            positions: Table::new(),
            directions: Table::new(),
            colliders: Table::new(),
            keyboards: Table::new(),
            body_lengths: Table::new(),
            self_destructs: Table::new(),
            scales: Table::new(),
            timers: Table::new(),
            spawners: Table::new(),
            animations: Table::new(),
            colors: Table::new(),
            speeds: Table::new(),
            properties: Table::new(),
            sounds: Table::new(),
        }
    }

    /// Removes `id`'s entry from every table; absent entries are a no-op.
    /// Exactly `id` is touched.
    pub fn kill(&mut self, entity: EntityId)
        requires
            old(self).wf(),
        ensures
            final(self).wf(),
            final(self).spec_erased(entity),
            forall|id: EntityId| id != entity ==> final(self).entry_unchanged(old(self), id),
    {
        self.positions.remove(entity);
        self.directions.remove(entity);
        self.colliders.remove(entity);
        self.keyboards.remove(entity);
        self.body_lengths.remove(entity);
        self.self_destructs.remove(entity);
        self.scales.remove(entity);
        self.timers.remove(entity);
        self.spawners.remove(entity);
        self.animations.remove(entity);
        self.colors.remove(entity);
        self.speeds.remove(entity);
        self.properties.remove(entity);
        self.sounds.remove(entity);
    }

    /// Initializes the kind's documented default into its table for `id`:
    /// what declaring a component at spawn does. Exactly `id`'s entry in
    /// that one kind's table changes.
    pub fn add_component(&mut self, entity: EntityId, component: Components)
        requires
            old(self).wf(),
        ensures
            final(self).wf(),
            kind_contains(final(self), entity, component),
            kind_default_at(final(self), entity, component),
            forall|c2: Components| c2 != component
                ==> kind_entry_unchanged(old(self), final(self), entity, c2),
            forall|id2: EntityId| id2 != entity
                ==> final(self).entry_unchanged(old(self), id2),
            final(self).positions.key_seq() == if component == Components::Position
                && !old(self).positions@.contains_key(entity) {
                old(self).positions.key_seq().push(entity)
            } else {
                old(self).positions.key_seq()
            },
            final(self).keyboards.key_seq() == if component == Components::Input
                && !old(self).keyboards@.contains_key(entity) {
                old(self).keyboards.key_seq().push(entity)
            } else {
                old(self).keyboards.key_seq()
            },
    {
        match component {
            Components::Position => self.positions.insert(entity, Position::new(0, 0, 0)),
            Components::Direction => self.directions.insert(entity, Direction::Still),
            Components::Collider => self.colliders.insert(entity, true),
            Components::Input => self.keyboards.insert(entity, Input::new()),
            Components::BodyLength => self.body_lengths.insert(entity, 0),
            Components::SelfDestruct => self.self_destructs.insert(entity, 0),
            Components::Scale => self.scales.insert(
                entity,
                Vec2i::new(crate::entity::SUBCELL, crate::entity::SUBCELL),
            ),
            Components::Timer => self.timers.insert(entity, Threshold::new(0)),
            Components::Spawner => self.spawners.insert(entity, true),
            Components::Animation => self.animations.insert(entity, Animation::Idle),
            Components::Color => self.colors.insert(entity, PaletteKey::Blank),
            Components::Speed => self.speeds.insert(entity, 0),
            Components::Properties => self.properties.insert(entity, PropBag::new()),
            Components::Sound => self.sounds.insert(entity, Player { pending: Vec::new() }),
        }
    }

    /// Queues a key press on every entity that holds the input capability.
    pub fn key_pressed(&mut self, key: Key)
        requires
            old(self).wf(),
        ensures
            final(self).wf(),
            final(self).keyboards.key_seq() == old(self).keyboards.key_seq(),
            forall|id: EntityId| #[trigger] old(self).keyboards@.contains_key(id)
                ==> final(self).keyboards@.contains_key(id)
                    && final(self).keyboards@[id].keys@ == old(self).keyboards@[id].keys@.push(key)
                    && final(self).keyboards@[id].mouse == old(self).keyboards@[id].mouse,
            forall|id: EntityId| final(self).keyboards@.contains_key(id)
                == old(self).keyboards@.contains_key(id),
            only_keyboards_changed(old(self), final(self)),
    {
        let ghost old_self = *old(self);
        let n = self.keyboards.len();
        let mut i: usize = 0;
        while i < n
            invariant
                self.wf(),
                n == self.keyboards.key_seq().len(),
                i <= n,
                self.keyboards.key_seq() == old_self.keyboards.key_seq(),
                forall|id: EntityId| self.keyboards@.contains_key(id)
                    == old_self.keyboards@.contains_key(id),
                forall|j: int| 0 <= j < i
                    ==> #[trigger] self.keyboards@[self.keyboards.key_seq()[j]].keys@
                        == old_self.keyboards@[old_self.keyboards.key_seq()[j]].keys@.push(key)
                        && self.keyboards@[self.keyboards.key_seq()[j]].mouse
                        == old_self.keyboards@[old_self.keyboards.key_seq()[j]].mouse,
                forall|j: int| i <= j < n
                    ==> #[trigger] self.keyboards@[self.keyboards.key_seq()[j]]
                        == old_self.keyboards@[old_self.keyboards.key_seq()[j]],
                only_keyboards_changed(&old_self, self),
            decreases n - i,
        {
            let ghost prev = *self;
            let mut input = self.keyboards.swap_val_at(i, Input::new());
            input.press(key);
            self.keyboards.set_val_at(i, input);
            proof {
                self.keyboards.lemma_key_seq();
                prev.keyboards.lemma_key_seq();
                let ks = self.keyboards.key_seq();
                assert(ks.contains(ks[i as int]));
                assert(prev.keyboards@.contains_key(ks[i as int]));
                assert forall|id: EntityId| self.keyboards@.contains_key(id)
                    == prev.keyboards@.contains_key(id) by {}
                assert forall|j: int| 0 <= j < i + 1
                    implies #[trigger] self.keyboards@[ks[j]].keys@
                        == old_self.keyboards@[ks[j]].keys@.push(key)
                        && self.keyboards@[ks[j]].mouse == old_self.keyboards@[ks[j]].mouse by {
                    if j < i {
                        assert(ks[j] != ks[i as int]) by {
                            assert(ks.no_duplicates());
                        }
                        assert(self.keyboards@[ks[j]] == prev.keyboards@[ks[j]]);
                    }
                }
                assert forall|j: int| i + 1 <= j < n
                    implies #[trigger] self.keyboards@[ks[j]]
                        == old_self.keyboards@[ks[j]] by {
                    assert(ks[j] != ks[i as int]) by {
                        assert(ks.no_duplicates());
                    }
                    assert(self.keyboards@[ks[j]] == prev.keyboards@[ks[j]]);
                }
            }
            i = i + 1;
        }
        proof {
            self.keyboards.lemma_key_seq();
            old_self.keyboards.lemma_key_seq();
            assert forall|id: EntityId| #[trigger] old_self.keyboards@.contains_key(id)
                implies self.keyboards@.contains_key(id)
                    && self.keyboards@[id].keys@ == old_self.keyboards@[id].keys@.push(key)
                    && self.keyboards@[id].mouse == old_self.keyboards@[id].mouse by {
                let ks = self.keyboards.key_seq();
                assert(ks.contains(id));
                let j = ks.index_of(id);
                assert(0 <= j < ks.len() && ks[j] == id);
            }
        }
    }

    /// Broadcasts the latest pointer position to every entity that holds
    /// the input capability.
    pub fn mouse_moved(&mut self, mouse: Vec2i)
        requires
            old(self).wf(),
        ensures
            final(self).wf(),
            final(self).keyboards.key_seq() == old(self).keyboards.key_seq(),
            forall|id: EntityId| #[trigger] old(self).keyboards@.contains_key(id)
                ==> final(self).keyboards@.contains_key(id)
                    && final(self).keyboards@[id].keys@ == old(self).keyboards@[id].keys@
                    && final(self).keyboards@[id].mouse == mouse,
            forall|id: EntityId| final(self).keyboards@.contains_key(id)
                == old(self).keyboards@.contains_key(id),
            only_keyboards_changed(old(self), final(self)),
    {
        let ghost old_self = *old(self);
        let n = self.keyboards.len();
        let mut i: usize = 0;
        while i < n
            invariant
                self.wf(),
                n == self.keyboards.key_seq().len(),
                i <= n,
                self.keyboards.key_seq() == old_self.keyboards.key_seq(),
                forall|id: EntityId| self.keyboards@.contains_key(id)
                    == old_self.keyboards@.contains_key(id),
                forall|j: int| 0 <= j < i
                    ==> #[trigger] self.keyboards@[self.keyboards.key_seq()[j]].keys@
                        == old_self.keyboards@[old_self.keyboards.key_seq()[j]].keys@
                        && self.keyboards@[self.keyboards.key_seq()[j]].mouse == mouse,
                forall|j: int| i <= j < n
                    ==> #[trigger] self.keyboards@[self.keyboards.key_seq()[j]]
                        == old_self.keyboards@[old_self.keyboards.key_seq()[j]],
                only_keyboards_changed(&old_self, self),
            decreases n - i,
        {
            let ghost prev = *self;
            let mut input = self.keyboards.swap_val_at(i, Input::new());
            input.mouse_move(mouse);
            self.keyboards.set_val_at(i, input);
            proof {
                self.keyboards.lemma_key_seq();
                prev.keyboards.lemma_key_seq();
                let ks = self.keyboards.key_seq();
                assert(ks.contains(ks[i as int]));
                assert(prev.keyboards@.contains_key(ks[i as int]));
                assert forall|id: EntityId| self.keyboards@.contains_key(id)
                    == prev.keyboards@.contains_key(id) by {}
                assert forall|j: int| 0 <= j < i + 1
                    implies #[trigger] self.keyboards@[ks[j]].keys@
                        == old_self.keyboards@[ks[j]].keys@
                        && self.keyboards@[ks[j]].mouse == mouse by {
                    if j < i {
                        assert(ks[j] != ks[i as int]) by {
                            assert(ks.no_duplicates());
                        }
                        assert(self.keyboards@[ks[j]] == prev.keyboards@[ks[j]]);
                    }
                }
                assert forall|j: int| i + 1 <= j < n
                    implies #[trigger] self.keyboards@[ks[j]]
                        == old_self.keyboards@[ks[j]] by {
                    assert(ks[j] != ks[i as int]) by {
                        assert(ks.no_duplicates());
                    }
                    assert(self.keyboards@[ks[j]] == prev.keyboards@[ks[j]]);
                }
            }
            i = i + 1;
        }
        proof {
            assert forall|id: EntityId| #[trigger] old_self.keyboards@.contains_key(id)
                implies self.keyboards@.contains_key(id)
                    && self.keyboards@[id].keys@ == old_self.keyboards@[id].keys@
                    && self.keyboards@[id].mouse == mouse by {
                old_self.keyboards.lemma_key_seq();
                self.keyboards.lemma_key_seq();
                let ks = self.keyboards.key_seq();
                assert(ks.contains(id));
                let j = ks.index_of(id);
                assert(0 <= j < ks.len() && ks[j] == id);
            }
        }
    }

    /// Whether `other` is a collider sitting (by its stored position) in
    /// grid cell `c`, and is not `entity` itself.
    pub open spec fn coincident(&self, entity: EntityId, c: (int, int), other: EntityId) -> bool {
        &&& other != entity
        &&& self.colliders@.contains_key(other)
        &&& self.positions@.contains_key(other)
        &&& spec_cell_of(self.positions@[other]) == c
    }

    /// The collision events a position write to cell `c` by `entity` emits:
    /// one per coincident collider, in the position table's scan order.
    pub open spec fn scan_hits(
        &self,
        entity: EntityId,
        c: (int, int),
        keys: Seq<EntityId>,
    ) -> Seq<(EntityId, EntityId)>
        decreases keys.len(),
    {
        if keys.len() == 0 {
            Seq::empty()
        } else {
            let rest = self.scan_hits(entity, c, keys.drop_last());
            if self.coincident(entity, c, keys.last()) {
                rest.push((entity, keys.last()))
            } else {
                rest
            }
        }
    }

    /// Writes `entity`'s position. If `entity` is a collider, first scans
    /// every other collider's stored position, grid-floor-quantized, and
    /// appends one collision event per coincidence — before the new value
    /// is committed, so an entity never collides with where it itself just
    /// was.
    pub fn set_position(
        &mut self,
        entity: EntityId,
        position: Position,
        collisions: &mut Vec<(EntityId, EntityId)>,
    )
        requires
            old(self).wf(),
        ensures
            final(self).wf(),
            final(self).positions@ == old(self).positions@.insert(entity, position),
            final(self).positions.key_seq() == if old(self).positions@.contains_key(entity) {
                old(self).positions.key_seq()
            } else {
                old(self).positions.key_seq().push(entity)
            },
            final(collisions)@ == if old(self).colliders@.contains_key(entity) {
                old(collisions)@ + old(self).scan_hits(
                    entity,
                    spec_cell_of(position),
                    old(self).positions.key_seq(),
                )
            } else {
                old(collisions)@
            },
            only_positions_changed(old(self), final(self)),
    {
        let ghost old_self = *old(self);
        if self.colliders.contains(entity) {
            let cell = cell_of(position);
            let n = self.positions.len();
            let mut i: usize = 0;
            while i < n
                invariant
                    self.wf(),
                    *self == old_self,
                    n == self.positions.key_seq().len(),
                    i <= n,
                    collisions@ == old(collisions)@ + self.scan_hits(
                        entity,
                        spec_cell_of(position),
                        self.positions.key_seq().take(i as int),
                    ),
                    cell.0 == spec_cell_of(position).0 && cell.1 == spec_cell_of(position).1,
                decreases n - i,
            {
                let other = self.positions.key_at(i);
                let ghost ks = self.positions.key_seq();
                if other != entity && self.colliders.contains(other) {
                    let other_pos = *self.positions.val_at(i);
                    let other_cell = cell_of(other_pos);
                    if cell.0 == other_cell.0 && cell.1 == other_cell.1 {
                        collisions.push((entity, other));
                    }
                }
                proof {
                    assert(ks.take(i + 1).drop_last() =~= ks.take(i as int));
                    assert(ks.take(i + 1).last() == ks[i as int]);
                    assert(collisions@ == old(collisions)@ + self.scan_hits(
                        entity,
                        spec_cell_of(position),
                        ks.take(i + 1),
                    ));
                }
                i = i + 1;
            }
            proof {
                assert(self.positions.key_seq().take(n as int) =~= self.positions.key_seq());
            }
        }
        self.positions.insert(entity, position);
    }
}

/// Whether `id`'s entry (present with the same value, or absent in both) is
/// the same in two table states.
pub open spec fn table_entry_unchanged<V>(a: Map<u64, V>, b: Map<u64, V>, id: u64) -> bool {
    a.contains_key(id) == b.contains_key(id) && (a.contains_key(id) ==> a[id] == b[id])
}

/// Every table but the keyboards is untouched.
pub open spec fn only_keyboards_changed(a: &Storages, b: &Storages) -> bool {
    &&& b.positions == a.positions
    &&& b.directions == a.directions
    &&& b.colliders == a.colliders
    &&& b.body_lengths == a.body_lengths
    &&& b.self_destructs == a.self_destructs
    &&& b.scales == a.scales
    &&& b.timers == a.timers
    &&& b.spawners == a.spawners
    &&& b.animations == a.animations
    &&& b.colors == a.colors
    &&& b.speeds == a.speeds
    &&& b.properties == a.properties
    &&& b.sounds == a.sounds
}

/// Every table but the positions is untouched.
pub open spec fn only_positions_changed(a: &Storages, b: &Storages) -> bool {
    &&& b.directions == a.directions
    &&& b.colliders == a.colliders
    &&& b.keyboards == a.keyboards
    &&& b.body_lengths == a.body_lengths
    &&& b.self_destructs == a.self_destructs
    &&& b.scales == a.scales
    &&& b.timers == a.timers
    &&& b.spawners == a.spawners
    &&& b.animations == a.animations
    &&& b.colors == a.colors
    &&& b.speeds == a.speeds
    &&& b.properties == a.properties
    &&& b.sounds == a.sounds
}

/// Whether the table of one component kind holds an entry for `id`: the
/// mark that `id` was declared with that kind at spawn.
pub open spec fn kind_contains(s: &Storages, id: EntityId, c: Components) -> bool {
    match c {
        Components::Position => s.positions@.contains_key(id),
        Components::Direction => s.directions@.contains_key(id),
        Components::Collider => s.colliders@.contains_key(id),
        Components::Input => s.keyboards@.contains_key(id),
        Components::BodyLength => s.body_lengths@.contains_key(id),
        Components::SelfDestruct => s.self_destructs@.contains_key(id),
        Components::Scale => s.scales@.contains_key(id),
        Components::Timer => s.timers@.contains_key(id),
        Components::Spawner => s.spawners@.contains_key(id),
        Components::Animation => s.animations@.contains_key(id),
        Components::Color => s.colors@.contains_key(id),
        Components::Speed => s.speeds@.contains_key(id),
        Components::Properties => s.properties@.contains_key(id),
        Components::Sound => s.sounds@.contains_key(id),
    }
}

/// Whether `id`'s entry in the kind's table holds the kind's documented
/// default: zero position, no direction, empty input, zero counters, a
/// one-to-one scale, a zero-period timer, the idle animation, the blank
/// color, zero speed, an empty bag, a quiet sound handle.
pub open spec fn kind_default_at(s: &Storages, id: EntityId, c: Components) -> bool {
    match c {
        Components::Position => s.positions@[id] == (Position { x: 0, y: 0, z: 0 }),
        Components::Direction => s.directions@[id] == Direction::Still,
        Components::Collider => s.colliders@[id] == true,
        Components::Input => s.keyboards@[id].keys@ == Seq::<Key>::empty()
            && s.keyboards@[id].mouse == (Vec2i { x: 0, y: 0 }),
        Components::BodyLength => s.body_lengths@[id] == 0i16,
        Components::SelfDestruct => s.self_destructs@[id] == 0i16,
        Components::Scale => s.scales@[id] == (Vec2i {
            x: crate::entity::SUBCELL,
            y: crate::entity::SUBCELL,
        }),
        Components::Timer => s.timers@[id] == (Threshold { acc: 0, threshold: 0 }),
        Components::Spawner => s.spawners@[id] == true,
        Components::Animation => s.animations@[id] == Animation::Idle,
        Components::Color => s.colors@[id] == PaletteKey::Blank,
        Components::Speed => s.speeds@[id] == 0i64,
        Components::Properties => s.properties@[id].wf() && s.properties@[id]@
            == Map::<Seq<char>, crate::props::PropValueView>::empty(),
        Components::Sound => s.sounds@[id].pending@ == Seq::<crate::sound::Sounds>::empty(),
    }
}

/// Whether `id`'s entry in the table of one kind is the same in two states.
pub open spec fn kind_entry_unchanged(a: &Storages, b: &Storages, id: EntityId, c: Components) -> bool {
    match c {
        Components::Position => table_entry_unchanged(a.positions@, b.positions@, id),
        Components::Direction => table_entry_unchanged(a.directions@, b.directions@, id),
        Components::Collider => table_entry_unchanged(a.colliders@, b.colliders@, id),
        Components::Input => table_entry_unchanged(a.keyboards@, b.keyboards@, id),
        Components::BodyLength => table_entry_unchanged(a.body_lengths@, b.body_lengths@, id),
        Components::SelfDestruct => table_entry_unchanged(
            a.self_destructs@,
            b.self_destructs@,
            id,
        ),
        Components::Scale => table_entry_unchanged(a.scales@, b.scales@, id),
        Components::Timer => table_entry_unchanged(a.timers@, b.timers@, id),
        Components::Spawner => table_entry_unchanged(a.spawners@, b.spawners@, id),
        Components::Animation => table_entry_unchanged(a.animations@, b.animations@, id),
        Components::Color => table_entry_unchanged(a.colors@, b.colors@, id),
        Components::Speed => table_entry_unchanged(a.speeds@, b.speeds@, id),
        Components::Properties => table_entry_unchanged(a.properties@, b.properties@, id),
        Components::Sound => table_entry_unchanged(a.sounds@, b.sounds@, id),
    }
}


impl Storages {
    /// Every event a scan emits names the scanning entity first.
    pub proof fn lemma_scan_hits_source(
        &self,
        entity: EntityId,
        c: (int, int),
        keys: Seq<EntityId>,
    )
        ensures
            forall|k: int|
                0 <= k < self.scan_hits(entity, c, keys).len()
                    ==> (#[trigger] self.scan_hits(entity, c, keys)[k]).0 == entity,
        decreases keys.len(),
    {
        if keys.len() > 0 {
            self.lemma_scan_hits_source(entity, c, keys.drop_last());
            let rest = self.scan_hits(entity, c, keys.drop_last());
            let full = self.scan_hits(entity, c, keys);
            assert forall|k: int| 0 <= k < full.len() implies (#[trigger] full[k]).0
                == entity by {
                if self.coincident(entity, c, keys.last()) {
                    if k < rest.len() {
                        assert(full[k] == rest[k]);
                    } else {
                        assert(full[k] == (entity, keys.last()));
                    }
                } else {
                    assert(full[k] == rest[k]);
                }
            }
        }
    }
}


/// How many times an event occurs in an event sequence.
pub open spec fn event_count(events: Seq<(EntityId, EntityId)>, e: (EntityId, EntityId)) -> nat
    decreases events.len(),
{
    if events.len() == 0 {
        0
    } else {
        event_count(events.drop_last(), e) + if events.last() == e {
            1nat
        } else {
            0nat
        }
    }
}

impl Storages {
    /// LAW: one position write emits exactly one collision event for each
    /// coincident collider, and none for anything else — so two colliders
    /// brought to the same grid cell in the same tick yield exactly one
    /// event for the pair, whichever of them moved, and none if they were
    /// never coincident.
    pub proof fn lemma_scan_hits_pair_once(
        &self,
        entity: EntityId,
        c: (int, int),
        keys: Seq<EntityId>,
        other: EntityId,
    )
        requires
            keys.no_duplicates(),
        ensures
            event_count(self.scan_hits(entity, c, keys), (entity, other)) == if self.coincident(
                entity,
                c,
                other,
            ) && keys.contains(other) {
                1nat
            } else {
                0nat
            },
        decreases keys.len(),
    {
        if keys.len() == 0 {
        } else {
            let rest_keys = keys.drop_last();
            assert(rest_keys.no_duplicates()) by {
                assert forall|a: int, b: int|
                    0 <= a < b < rest_keys.len() implies rest_keys[a] != rest_keys[b] by {
                    assert(keys[a] == rest_keys[a] && keys[b] == rest_keys[b]);
                }
            }
            self.lemma_scan_hits_pair_once(entity, c, rest_keys, other);
            let rest = self.scan_hits(entity, c, rest_keys);
            let full = self.scan_hits(entity, c, keys);
            assert(!rest_keys.contains(keys.last())) by {
                if rest_keys.contains(keys.last()) {
                    let l = rest_keys.index_of(keys.last());
                    assert(keys[l] == keys.last());
                    assert(keys[keys.len() - 1] == keys.last());
                }
            }
            assert forall|x: EntityId| #[trigger] keys.contains(x)
                implies rest_keys.contains(x) || x == keys.last() by {
                let l = keys.index_of(x);
                if l < keys.len() - 1 {
                    assert(rest_keys[l] == x);
                }
            }
            assert forall|x: EntityId| rest_keys.contains(x)
                implies #[trigger] keys.contains(x) by {
                let l = rest_keys.index_of(x);
                assert(keys[l] == x);
            }
            if self.coincident(entity, c, keys.last()) {
                assert(full == rest.push((entity, keys.last())));
                assert(full.drop_last() =~= rest);
                assert(full.last() == (entity, keys.last()));
            } else {
                assert(full == rest);
            }
        }
    }
}


/// LAW: an erased entity is "not found" in every component kind's table —
/// so after a kill, every lookup of the id reports missing, never stale
/// data.
pub proof fn lemma_erased_is_not_found(s: &Storages, id: EntityId)
    requires
        s.spec_erased(id),
    ensures
        forall|c: Components| !kind_contains(s, id, c),
{
    assert forall|c: Components| !kind_contains(s, id, c) by {
        assert(!s.spec_has_entry(id));
    }
}

} // verus!
