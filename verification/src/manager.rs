//! The entity manager: the append-only directory of live entities, the
//! component storages, the deferred command queues, and the per-tick
//! protocol over them.

use vstd::prelude::*;
use crate::entity::{
    Components, Entities, EntityId, EntityView, Fault, Key, Position, Scale, Speed, Vec2i,
};
use crate::palette::PaletteKey;
use crate::props::PropValue;
use crate::sound::Sounds;
use crate::storages::{kind_contains, kind_default_at, kind_entry_unchanged, Storages};
use crate::time::Threshold;

verus! {

/// One step of a deferred spawn request: an initial value for a component
/// or property of the entity being built.
pub enum Init {
    Position(Position),
    Direction(crate::entity::Direction),
    Scale(Scale),
    Speed(Speed),
    Color(PaletteKey),
    BodyLength(i16),
    SelfDestruct(i16),
    TimerThreshold(u64),
    Property(String, PropValue),
}

/// A deferred "build this into the manager" request: plain data that the
/// spawn-queue drain executes with full access to the manager. A request
/// cannot enqueue further requests, so spawn-during-spawn cannot recurse
/// within one frame.
pub struct SpawnRequest {
    pub tag: Entities,
    pub components: Vec<Components>,
    pub inits: Vec<Init>,
}

/// The top-level orchestrator: owns the directory, the storages and the
/// queues; drives the per-tick protocol; exposes spawn, kill, view, tick
/// and the draw order.
pub struct EntityManager {
    tracker: EntityId,
    entities: Vec<EntityId>,
    types: Vec<Entities>,
    pending_keys: Vec<Key>,
    pending_mouse: Vec<Vec2i>,
    kill_queue: Vec<EntityId>,
    spawn_queue: Vec<SpawnRequest>,
    collision_queue: Vec<(EntityId, EntityId)>,
    sound_queue: Vec<Sounds>,
    storage: Storages,
    issued: Ghost<Set<EntityId>>,
}

impl EntityManager {
    /// The live entity ids, sorted by construction order (ascending).
    pub closed spec fn directory(&self) -> Seq<EntityId> {
        self.entities@
    }

    /// The archetype tags, parallel to the directory.
    pub closed spec fn tags(&self) -> Seq<Entities> {
        self.types@
    }

    /// The id the next spawn will issue.
    pub closed spec fn next_id(&self) -> EntityId {
        self.tracker
    }

    /// Every id ever issued, live or dead.
    pub closed spec fn issued(&self) -> Set<EntityId> {
        self.issued@
    }

    /// The component storages.
    pub closed spec fn store(&self) -> Storages {
        self.storage
    }

    /// Ids whose removal is pending.
    pub closed spec fn kills(&self) -> Seq<EntityId> {
        self.kill_queue@
    }

    /// Spawn requests pending execution.
    pub closed spec fn spawns(&self) -> Seq<SpawnRequest> {
        self.spawn_queue@
    }

    /// Collision events pending resolution.
    pub closed spec fn collisions(&self) -> Seq<(EntityId, EntityId)> {
        self.collision_queue@
    }

    /// Sound requests pending hand-off to the audio subsystem.
    pub closed spec fn sounds(&self) -> Seq<Sounds> {
        self.sound_queue@
    }

    /// Key presses delivered by the input subsystem, not yet fanned out.
    pub closed spec fn keys_pending(&self) -> Seq<Key> {
        self.pending_keys@
    }

    /// Pointer positions delivered by the input subsystem, newest last.
    pub closed spec fn mouse_pending(&self) -> Seq<Vec2i> {
        self.pending_mouse@
    }

    /// Whether `id` is live: present in the directory.
    pub open spec fn live(&self, id: EntityId) -> bool {
        self.directory().contains(id)
    }

    /// The archetype tag of a live entity.
    pub open spec fn tag_of(&self, id: EntityId) -> Entities {
        self.tags()[self.directory().index_of(id)]
    }

    pub closed spec fn wf(&self) -> bool {
        &&& self.entities@.len() == self.types@.len()
        &&& forall|i: int, j: int|
            0 <= i < j < self.entities@.len() ==> self.entities@[i] < self.entities@[j]
        &&& forall|i: int|
            0 <= i < self.entities@.len() ==> #[trigger] self.entities@[i] < self.tracker
        &&& forall|i: int|
            0 <= i < self.entities@.len() ==> self.issued@.contains(#[trigger] self.entities@[i])
        &&& forall|id: EntityId| self.issued@.contains(id) ==> id < self.tracker
        &&& self.storage.wf()
        &&& forall|id: EntityId|
            #[trigger] self.storage.spec_has_entry(id) ==> self.entities@.contains(id)
    }

    /// The queues and input buffers all at once, for contracts that leave
    /// them alone.
    pub open spec fn queues_unchanged(&self, other: &Self) -> bool {
        &&& self.kills() == other.kills()
        &&& self.spawns() == other.spawns()
        &&& self.collisions() == other.collisions()
        &&& self.sounds() == other.sounds()
        &&& self.keys_pending() == other.keys_pending()
        &&& self.mouse_pending() == other.mouse_pending()
    }

    pub fn new() -> (r: Self)
        ensures
            r.wf(),
            r.directory() == Seq::<EntityId>::empty(),
            r.tags() == Seq::<Entities>::empty(),
            r.next_id() == 0,
            r.issued() == Set::<EntityId>::empty(),
            r.kills() == Seq::<EntityId>::empty(),
            r.spawns() == Seq::<SpawnRequest>::empty(),
            r.collisions() == Seq::<(EntityId, EntityId)>::empty(),
            r.sounds() == Seq::<Sounds>::empty(),
            r.keys_pending() == Seq::<Key>::empty(),
            r.mouse_pending() == Seq::<Vec2i>::empty(),
            forall|id: EntityId| r.store().spec_erased(id),
    {
        let r = EntityManager {
            tracker: 0,
            entities: Vec::new(),
            types: Vec::new(),
            pending_keys: Vec::new(),
            pending_mouse: Vec::new(),
            kill_queue: Vec::new(),
            spawn_queue: Vec::new(),
            collision_queue: Vec::new(),
            sound_queue: Vec::new(),
            storage: Storages::new(),
            issued: Ghost(Set::empty()),
        };
        proof {
            assert(r.directory() =~= Seq::<EntityId>::empty());
            assert(r.tags() =~= Seq::<Entities>::empty());
            assert(r.kills() =~= Seq::<EntityId>::empty());
            assert(r.spawns() =~= Seq::<SpawnRequest>::empty());
            assert(r.collisions() =~= Seq::<(EntityId, EntityId)>::empty());
            assert(r.sounds() =~= Seq::<Sounds>::empty());
            assert(r.keys_pending() =~= Seq::<Key>::empty());
            assert(r.mouse_pending() =~= Seq::<Vec2i>::empty());
            assert forall|id: EntityId| #[trigger] r.storage.spec_has_entry(id)
                implies r.entities@.contains(id) by {
                assert(r.storage.spec_erased(id));
            }
        }
        r
    }

    /// Allocates the next id, appends it to the directory with its tag, and
    /// initializes each requested component kind to its documented default.
    /// The new id is strictly greater than every id ever issued, so ids are
    /// never reused; the entity is visible to the directory from here on.
    pub fn spawn(&mut self, tag: Entities, components: &Vec<Components>) -> (id: EntityId)
        requires
            old(self).wf(),
            old(self).next_id() < EntityId::MAX,
        ensures
            final(self).wf(),
            id == old(self).next_id(),
            !old(self).issued().contains(id),
            forall|j: int|
                0 <= j < old(self).directory().len() ==> #[trigger] old(self).directory()[j] < id,
            final(self).directory() == old(self).directory().push(id),
            final(self).tags() == old(self).tags().push(tag),
            final(self).next_id() == id + 1,
            final(self).issued() == old(self).issued().insert(id),
            forall|c: Components| #[trigger] components@.contains(c)
                ==> kind_contains(&final(self).store(), id, c)
                    && kind_default_at(&final(self).store(), id, c),
            forall|c: Components| !components@.contains(c)
                ==> !kind_contains(&final(self).store(), id, c),
            forall|id2: EntityId| id2 != id
                ==> final(self).store().entry_unchanged(&old(self).store(), id2),
            final(self).store().positions.key_seq() == if components@.contains(
                Components::Position,
            ) {
                old(self).store().positions.key_seq().push(id)
            } else {
                old(self).store().positions.key_seq()
            },
            final(self).store().keyboards.key_seq() == if components@.contains(
                Components::Input,
            ) {
                old(self).store().keyboards.key_seq().push(id)
            } else {
                old(self).store().keyboards.key_seq()
            },
            final(self).queues_unchanged(old(self)),
    {
        let ghost pre = *old(self);
        let id = self.tracker;
        self.tracker = self.tracker + 1;
        self.entities.push(id);
        self.types.push(tag);
        proof {
            self.issued@ = self.issued@.insert(id);
            assert(!pre.issued@.contains(id));
            assert(!pre.entities@.contains(id)) by {
                if pre.entities@.contains(id) {
                    let j = pre.entities@.index_of(id);
                    assert(pre.entities@[j] < pre.tracker);
                }
            }
            assert(pre.storage.spec_erased(id)) by {
                if pre.storage.spec_has_entry(id) {
                    assert(pre.entities@.contains(id));
                }
            }
        }
        let ghost mid = *self;
        let n = components.len();
        let mut i: usize = 0;
        while i < n
            invariant
                self.storage.wf(),
                n == components@.len(),
                i <= n,
                self.tracker == mid.tracker,
                self.entities@ == mid.entities@,
                self.types@ == mid.types@,
                self.issued@ == mid.issued@,
                self.kill_queue@ == mid.kill_queue@,
                self.spawn_queue@ == mid.spawn_queue@,
                self.collision_queue@ == mid.collision_queue@,
                self.sound_queue@ == mid.sound_queue@,
                self.pending_keys@ == mid.pending_keys@,
                self.pending_mouse@ == mid.pending_mouse@,
                forall|c: Components| #[trigger] components@.take(i as int).contains(c)
                    ==> kind_contains(&self.storage, id, c) && kind_default_at(
                        &self.storage,
                        id,
                        c,
                    ),
                forall|c: Components| !components@.take(i as int).contains(c)
                    ==> !kind_contains(&self.storage, id, c),
                forall|id2: EntityId| id2 != id
                    ==> self.storage.entry_unchanged(&pre.storage, id2),
                self.storage.positions.key_seq() == if components@.take(i as int).contains(
                    Components::Position,
                ) {
                    pre.storage.positions.key_seq().push(id)
                } else {
                    pre.storage.positions.key_seq()
                },
                self.storage.keyboards.key_seq() == if components@.take(i as int).contains(
                    Components::Input,
                ) {
                    pre.storage.keyboards.key_seq().push(id)
                } else {
                    pre.storage.keyboards.key_seq()
                },
                id == pre.tracker,
                pre.storage.spec_erased(id),
            decreases n - i,
        {
            let ghost prev_st = self.storage;
            let c = components[i];
            self.storage.add_component(id, c);
            proof {
                assert(components@.take(i + 1).drop_last() =~= components@.take(i as int));
                assert(components@.take(i + 1).last() == components@[i as int]);
                assert forall|c2: Components| #[trigger] components@.take(i + 1).contains(c2)
                    implies kind_contains(&self.storage, id, c2) && kind_default_at(
                        &self.storage,
                        id,
                        c2,
                    ) by {
                    if c2 == c {
                    } else {
                        let j = components@.take(i + 1).index_of(c2);
                        if j < i {
                            assert(components@.take(i as int)[j] == c2);
                            assert(components@.take(i as int).contains(c2));
                        } else {
                            assert(components@.take(i + 1)[j] == c2);
                            assert(c2 == c);
                        }
                        assert(components@.take(i as int).contains(c2));
                        assert(kind_entry_unchanged(&prev_st, &self.storage, id, c2));
                    }
                }
                assert(components@.take(i + 1).contains(c)) by {
                    assert(components@.take(i + 1)[i as int] == c);
                }
                assert forall|c2: Components| components@.take(i as int).contains(c2)
                    implies #[trigger] components@.take(i + 1).contains(c2) by {
                    let j = components@.take(i as int).index_of(c2);
                    assert(components@.take(i + 1)[j] == c2);
                }
                assert forall|c2: Components| #[trigger] components@.take(i + 1).contains(c2)
                    implies components@.take(i as int).contains(c2) || c2 == c by {
                    let j = components@.take(i + 1).index_of(c2);
                    if j < i {
                        assert(components@.take(i as int)[j] == c2);
                    }
                }
                assert forall|c2: Components| !components@.take(i + 1).contains(c2)
                    implies !kind_contains(&self.storage, id, c2) by {
                    assert(!components@.take(i as int).contains(c2));
                    assert(c2 != c);
                    assert(!kind_contains(&prev_st, id, c2));
                    assert(kind_entry_unchanged(&prev_st, &self.storage, id, c2));
                }
                assert forall|id2: EntityId| id2 != id
                    implies self.storage.entry_unchanged(&pre.storage, id2) by {
                    assert(self.storage.entry_unchanged(&prev_st, id2));
                    assert(prev_st.entry_unchanged(&pre.storage, id2));
                }
                assert(self.storage.positions.key_seq() == if components@.take(i + 1).contains(
                    Components::Position,
                ) {
                    pre.storage.positions.key_seq().push(id)
                } else {
                    pre.storage.positions.key_seq()
                }) by {
                    if c == Components::Position {
                        if components@.take(i as int).contains(Components::Position) {
                            assert(kind_contains(&prev_st, id, Components::Position));
                            assert(prev_st.positions@.contains_key(id));
                        } else {
                            assert(!kind_contains(&prev_st, id, Components::Position));
                            assert(!prev_st.positions@.contains_key(id));
                        }
                    } else {
                        assert(components@.take(i + 1).contains(Components::Position)
                            == components@.take(i as int).contains(Components::Position));
                    }
                }
                assert(self.storage.keyboards.key_seq() == if components@.take(i + 1).contains(
                    Components::Input,
                ) {
                    pre.storage.keyboards.key_seq().push(id)
                } else {
                    pre.storage.keyboards.key_seq()
                }) by {
                    if c == Components::Input {
                        if components@.take(i as int).contains(Components::Input) {
                            assert(kind_contains(&prev_st, id, Components::Input));
                            assert(prev_st.keyboards@.contains_key(id));
                        } else {
                            assert(!kind_contains(&prev_st, id, Components::Input));
                            assert(!prev_st.keyboards@.contains_key(id));
                        }
                    } else {
                        assert(components@.take(i + 1).contains(Components::Input)
                            == components@.take(i as int).contains(Components::Input));
                    }
                }
            }
            i = i + 1;
        }
        proof {
            assert(components@.take(n as int) =~= components@);
            assert(self.entities@ == pre.entities@.push(id));
            assert forall|a: int, b: int|
                0 <= a < b < self.entities@.len()
                implies self.entities@[a] < self.entities@[b] by {
                if b < pre.entities@.len() {
                } else {
                    assert(self.entities@[b] == id);
                    assert(pre.entities@[a] < pre.tracker);
                }
            }
            assert forall|id2: EntityId|
                #[trigger] self.storage.spec_has_entry(id2)
                implies self.entities@.contains(id2) by {
                if id2 == id {
                    assert(self.entities@[pre.entities@.len() as int] == id);
                } else {
                    assert(self.storage.entry_unchanged(&pre.storage, id2));
                    assert(pre.storage.spec_has_entry(id2));
                    assert(pre.entities@.contains(id2));
                    let j = pre.entities@.index_of(id2);
                    assert(self.entities@[j] == id2);
                }
            }
            assert forall|i2: int|
                0 <= i2 < self.entities@.len()
                implies self.issued@.contains(#[trigger] self.entities@[i2]) by {
                if i2 < pre.entities@.len() {
                    assert(pre.issued@.contains(pre.entities@[i2]));
                }
            }
        }
        id
    }

    fn index_of_live(&self, entity: EntityId) -> (r: Option<usize>)
        requires
            self.wf(),
        ensures
            match r {
                Some(i) => i < self.directory().len() && self.directory()[i as int] == entity,
                None => !self.live(entity),
            },
    {
        let mut lo: usize = 0;
        let mut hi: usize = self.entities.len();
        while lo < hi
            invariant
                self.wf(),
                lo <= hi <= self.entities@.len(),
                forall|j: int| 0 <= j < lo ==> #[trigger] self.entities@[j] < entity,
                forall|j: int|
                    hi <= j < self.entities@.len() ==> #[trigger] self.entities@[j] > entity,
            decreases hi - lo,
        {
            let mid = lo + (hi - lo) / 2;
            let v = self.entities[mid];
            if v == entity {
                return Some(mid);
            } else if v < entity {
                proof {
                    assert forall|j: int| 0 <= j < mid + 1
                        implies #[trigger] self.entities@[j] < entity by {
                        if j < mid {
                            assert(self.entities@[j] < self.entities@[mid as int]);
                        }
                    }
                }
                lo = mid + 1;
            } else {
                proof {
                    assert forall|j: int| mid <= j < self.entities@.len()
                        implies #[trigger] self.entities@[j] > entity by {
                        if j > mid {
                            assert(self.entities@[mid as int] < self.entities@[j]);
                        }
                    }
                }
                hi = mid;
            }
        }
        proof {
            if self.entities@.contains(entity) {
                let j = self.entities@.index_of(entity);
                assert(self.entities@[j] == entity);
            }
        }
        None
    }

    /// Resolves an id through the directory: a view for a live id, nothing
    /// for an unknown or already-killed one.
    pub fn view(&self, entity: EntityId) -> (r: Option<EntityView>)
        requires
            self.wf(),
        ensures
            match r {
                Some(v) => self.live(entity) && v.id() == entity && v.which() == self.tag_of(
                    entity,
                ),
                None => !self.live(entity),
            },
    {
        match self.index_of_live(entity) {
            Some(i) => {
                proof {
                    let j = self.entities@.index_of(entity);
                    assert(self.entities@.contains(entity));
                    assert(self.entities@[j] == entity);
                    if j != i {
                        assert(self.entities@[j] != self.entities@[i as int]);
                    }
                }
                Some(EntityView::make(entity, self.types[i]))
            },
            None => None,
        }
    }

    /// Immediate, synchronous removal: takes the entity out of the
    /// directory and erases its entry from every component storage, in one
    /// step. Unknown ids are a no-op. (In-simulation behavior code uses the
    /// deferred kill queue instead; this is for external owners.)
    pub fn kill(&mut self, entity: EntityId)
        requires
            old(self).wf(),
        ensures
            final(self).wf(),
            !final(self).live(entity),
            final(self).store().spec_erased(entity),
            forall|id2: EntityId| id2 != entity ==> final(self).live(id2) == old(self).live(id2),
            forall|id2: EntityId| id2 != entity && old(self).live(id2)
                ==> final(self).tag_of(id2) == old(self).tag_of(id2),
            forall|id2: EntityId| id2 != entity
                ==> final(self).store().entry_unchanged(&old(self).store(), id2),
            !old(self).live(entity) ==> final(self).directory() == old(self).directory()
                && final(self).tags() == old(self).tags(),
            old(self).live(entity) ==> exists|i: int|
                0 <= i < old(self).directory().len() && old(self).directory()[i] == entity
                    && final(self).directory() == old(self).directory().remove(i)
                    && final(self).tags() == old(self).tags().remove(i),
            final(self).next_id() == old(self).next_id(),
            final(self).issued() == old(self).issued(),
            final(self).queues_unchanged(old(self)),
    {
        let ghost pre = *old(self);
        match self.index_of_live(entity) {
            Some(i) => {
                self.entities.remove(i);
                self.types.remove(i);
                self.storage.kill(entity);
                proof {
                    pre.entities@.remove_ensures(i as int);
                    pre.types@.remove_ensures(i as int);
                    assert forall|a: int, b: int|
                        0 <= a < b < self.entities@.len()
                        implies self.entities@[a] < self.entities@[b] by {
                        let a0 = if a < i { a } else { a + 1 };
                        let b0 = if b < i { b } else { b + 1 };
                        assert(self.entities@[a] == pre.entities@[a0]);
                        assert(self.entities@[b] == pre.entities@[b0]);
                    }
                    assert(!self.entities@.contains(entity)) by {
                        if self.entities@.contains(entity) {
                            let j = self.entities@.index_of(entity);
                            let j0 = if j < i { j } else { j + 1 };
                            assert(pre.entities@[j0] == entity);
                            assert(j0 != i);
                            assert(pre.entities@[i as int] == entity);
                        }
                    }
                    assert forall|id2: EntityId| id2 != entity
                        implies self.entities@.contains(id2) == pre.entities@.contains(id2) by {
                        if pre.entities@.contains(id2) {
                            let j0 = pre.entities@.index_of(id2);
                            assert(j0 != i);
                            let j = if j0 < i { j0 } else { j0 - 1 };
                            assert(self.entities@[j] == id2);
                        }
                        if self.entities@.contains(id2) {
                            let j = self.entities@.index_of(id2);
                            let j0 = if j < i { j } else { j + 1 };
                            assert(pre.entities@[j0] == id2);
                        }
                    }
                    assert forall|id2: EntityId| id2 != entity && pre.entities@.contains(id2)
                        implies self.tags()[self.directory().index_of(id2)] == pre.tags()[
                        pre.directory().index_of(id2)] by {
                        let j0 = pre.entities@.index_of(id2);
                        assert(j0 != i);
                        let j = if j0 < i { j0 } else { j0 - 1 };
                        assert(self.entities@[j] == id2);
                        assert(self.types@[j] == pre.types@[j0]);
                        let jj = self.entities@.index_of(id2);
                        assert(self.entities@.contains(id2));
                        assert(self.entities@[jj] == id2);
                        if jj != j {
                            assert(self.entities@[jj] != self.entities@[j]);
                        }
                        let jj0 = pre.entities@.index_of(id2);
                        assert(pre.entities@[jj0] == id2);
                    }
                    assert forall|id2: EntityId|
                        #[trigger] self.storage.spec_has_entry(id2)
                        implies self.entities@.contains(id2) by {
                        assert(id2 != entity);
                        assert(self.storage.entry_unchanged(&pre.storage, id2));
                        assert(pre.storage.spec_has_entry(id2));
                        assert(pre.entities@.contains(id2));
                    }
                    assert(pre.live(entity));
                    assert(0 <= i < pre.directory().len() && pre.directory()[i as int] == entity
                        && self.directory() == pre.directory().remove(i as int) && self.tags()
                        == pre.tags().remove(i as int));
                }
            },
            None => {
                proof {
                    assert(self.storage.spec_erased(entity)) by {
                        if self.storage.spec_has_entry(entity) {
                            assert(self.entities@.contains(entity));
                        }
                    }
                }
            },
        }
    }
}


/// The directory, tags, id allocator and issued set all at once, for
/// contracts that only touch component data.
pub open spec fn frame_unchanged(a: &EntityManager, b: &EntityManager) -> bool {
    &&& b.directory() == a.directory()
    &&& b.tags() == a.tags()
    &&& b.next_id() == a.next_id()
    &&& b.issued() == a.issued()
}

proof fn lemma_store_update_wf(pre: EntityManager, post: EntityManager, id: EntityId)
    requires
        pre.wf(),
        post.entities@ == pre.entities@,
        post.types@ == pre.types@,
        post.tracker == pre.tracker,
        post.issued@ == pre.issued@,
        post.storage.wf(),
        pre.entities@.contains(id),
        forall|id2: EntityId| id2 != id ==> post.storage.entry_unchanged(&pre.storage, id2),
    ensures
        post.wf(),
{
    assert forall|id2: EntityId| #[trigger] post.storage.spec_has_entry(id2)
        implies post.entities@.contains(id2) by {
        if id2 != id {
            assert(post.storage.entry_unchanged(&pre.storage, id2));
            assert(pre.storage.spec_has_entry(id2));
        }
    }
}

impl EntityManager {
    /// Delivers a raw key press from the input subsystem; it is fanned out
    /// to the input-holding entities when the next tick begins.
    pub fn push_key(&mut self, key: Key)
        requires
            old(self).wf(),
        ensures
            final(self).wf(),
            final(self).keys_pending() == old(self).keys_pending().push(key),
            final(self).mouse_pending() == old(self).mouse_pending(),
            final(self).kills() == old(self).kills(),
            final(self).spawns() == old(self).spawns(),
            final(self).collisions() == old(self).collisions(),
            final(self).sounds() == old(self).sounds(),
            frame_unchanged(old(self), final(self)),
            final(self).store() == old(self).store(),
    {
        self.pending_keys.push(key);
    }

    /// Delivers an absolute pointer position from the input subsystem; the
    /// latest one is broadcast when the next tick begins.
    pub fn push_mouse(&mut self, pos: Vec2i)
        requires
            old(self).wf(),
        ensures
            final(self).wf(),
            final(self).mouse_pending() == old(self).mouse_pending().push(pos),
            final(self).keys_pending() == old(self).keys_pending(),
            final(self).kills() == old(self).kills(),
            final(self).spawns() == old(self).spawns(),
            final(self).collisions() == old(self).collisions(),
            final(self).sounds() == old(self).sounds(),
            frame_unchanged(old(self), final(self)),
            final(self).store() == old(self).store(),
    {
        self.pending_mouse.push(pos);
    }

    /// Hands every buffered sound request to the audio frontend, oldest
    /// first.
    pub fn take_sounds(&mut self) -> (r: Vec<Sounds>)
        requires
            old(self).wf(),
        ensures
            final(self).wf(),
            r@ == old(self).sounds(),
            final(self).sounds() == Seq::<Sounds>::empty(),
            final(self).kills() == old(self).kills(),
            final(self).spawns() == old(self).spawns(),
            final(self).collisions() == old(self).collisions(),
            final(self).keys_pending() == old(self).keys_pending(),
            final(self).mouse_pending() == old(self).mouse_pending(),
            frame_unchanged(old(self), final(self)),
            final(self).store() == old(self).store(),
    {
        let mut out: Vec<Sounds> = Vec::new();
        core::mem::swap(&mut out, &mut self.sound_queue);
        proof {
            assert(self.sound_queue@ =~= Seq::<Sounds>::empty());
        }
        out
    }

    /// The dispatch order of the draw phase: a fresh view of every live
    /// entity, in directory order. The draw behaviors themselves are
    /// external collaborators; the core hands them this sequence and the
    /// primitives they push go to the renderer.
    pub fn draw(&self) -> (order: Vec<EntityView>)
        requires
            self.wf(),
        ensures
            order@.len() == self.directory().len(),
            forall|i: int| 0 <= i < order@.len()
                ==> (#[trigger] order@[i]).id() == self.directory()[i] && order@[i].which()
                    == self.tags()[i],
    {
        let n = self.entities.len();
        let mut order: Vec<EntityView> = Vec::new();
        let mut i: usize = 0;
        while i < n
            invariant
                self.wf(),
                n == self.entities@.len(),
                i <= n,
                order@.len() == i,
                forall|j: int| 0 <= j < i
                    ==> (#[trigger] order@[j]).id() == self.entities@[j] && order@[j].which()
                        == self.types@[j],
            decreases n - i,
        {
            order.push(EntityView::make(self.entities[i], self.types[i]));
            i = i + 1;
        }
        order
    }
}

impl EntityView {
    /// The stored position; `MissingComponent` if the entity was not
    /// spawned with one (or is no longer live).
    pub fn get_position(&self, man: &EntityManager) -> (r: Result<Position, Fault>)
        requires
            man.wf(),
        ensures
            r == if man.store().positions@.contains_key(self.id()) {
                Ok::<Position, Fault>(man.store().positions@[self.id()])
            } else {
                Err::<Position, Fault>(
                    Fault::MissingComponent { tag: self.which(), component: Components::Position },
                )
            },
    {
        match man.storage.positions.get(self.id()) {
            Some(v) => Ok(*v),
            None => Err(
                Fault::MissingComponent { tag: self.which(), component: Components::Position },
            ),
        }
    }

    /// Writes the position. If the entity is a collider this first scans
    /// every other collider's stored position and enqueues one collision
    /// event per shared grid cell — before the new value is committed.
    pub fn set_position(&self, man: &mut EntityManager, position: Position) -> (r: Result<
        (),
        Fault,
    >)
        requires
            old(man).wf(),
        ensures
            final(man).wf(),
            r == if old(man).store().positions@.contains_key(self.id()) {
                Ok::<(), Fault>(())
            } else {
                Err::<(), Fault>(
                    Fault::MissingComponent { tag: self.which(), component: Components::Position },
                )
            },
            r is Ok ==> {
                &&& final(man).store().positions@ == old(man).store().positions@.insert(
                    self.id(),
                    position,
                )
                &&& final(man).store().positions.key_seq() == old(
                    man,
                ).store().positions.key_seq()
                &&& final(man).collisions() == old(man).collisions() + if old(
                    man,
                ).store().colliders@.contains_key(self.id()) {
                    old(man).store().scan_hits(
                        self.id(),
                        crate::entity::spec_cell_of(position),
                        old(man).store().positions.key_seq(),
                    )
                } else {
                    Seq::<(EntityId, EntityId)>::empty()
                }
                &&& crate::storages::only_positions_changed(&old(man).store(), &final(man).store())
            },
            r is Err ==> *final(man) == *old(man),
            frame_unchanged(old(man), final(man)),
            final(man).kills() == old(man).kills(),
            final(man).spawns() == old(man).spawns(),
            final(man).sounds() == old(man).sounds(),
            final(man).keys_pending() == old(man).keys_pending(),
            final(man).mouse_pending() == old(man).mouse_pending(),
    {
        let ghost pre = *old(man);
        if man.storage.positions.contains(self.id()) {
            man.storage.set_position(self.id(), position, &mut man.collision_queue);
            proof {
                assert(pre.storage.spec_has_entry(self.id()));
                assert(pre.entities@.contains(self.id()));
                assert forall|id2: EntityId| id2 != self.id()
                    implies man.storage.entry_unchanged(&pre.storage, id2) by {}
                lemma_store_update_wf(pre, *man, self.id());
                if !pre.storage.colliders@.contains_key(self.id()) {
                    assert(man.collision_queue@ =~= pre.collision_queue@ + Seq::<(
                        EntityId,
                        EntityId,
                    )>::empty());
                }
            }
            Ok(())
        } else {
            Err(Fault::MissingComponent { tag: self.which(), component: Components::Position })
        }
    }

    /// The stored direction; `MissingComponent` if the entity was not
    /// spawned with one.
    pub fn get_direction(&self, man: &EntityManager) -> (r: Result<
        crate::entity::Direction,
        Fault,
    >)
        requires
            man.wf(),
        ensures
            r == if man.store().directions@.contains_key(self.id()) {
                Ok::<crate::entity::Direction, Fault>(man.store().directions@[self.id()])
            } else {
                Err::<crate::entity::Direction, Fault>(
                    Fault::MissingComponent {
                        tag: self.which(),
                        component: Components::Direction,
                    },
                )
            },
    {
        match man.storage.directions.get(self.id()) {
            Some(v) => Ok(*v),
            None => Err(
                Fault::MissingComponent { tag: self.which(), component: Components::Direction },
            ),
        }
    }

    pub fn set_direction(&self, man: &mut EntityManager, direction: crate::entity::Direction) -> (
    r: Result<(), Fault>)
        requires
            old(man).wf(),
        ensures
            final(man).wf(),
            r == if old(man).store().directions@.contains_key(self.id()) {
                Ok::<(), Fault>(())
            } else {
                Err::<(), Fault>(
                    Fault::MissingComponent {
                        tag: self.which(),
                        component: Components::Direction,
                    },
                )
            },
            r is Ok ==> final(man).store().directions@ == old(man).store().directions@.insert(
                self.id(),
                direction,
            ) && component_write_frame(
                &old(man).store(),
                &final(man).store(),
                self.id(),
                Components::Direction,
            ),
            r is Err ==> *final(man) == *old(man),
            frame_unchanged(old(man), final(man)),
            final(man).queues_unchanged(old(man)),
    {
        let ghost pre = *old(man);
        if man.storage.directions.contains(self.id()) {
            man.storage.directions.insert(self.id(), direction);
            proof {
                view_setter_frame(pre, *man, self.id());
            }
            Ok(())
        } else {
            Err(Fault::MissingComponent { tag: self.which(), component: Components::Direction })
        }
    }

    pub fn get_body_length(&self, man: &EntityManager) -> (r: Result<i16, Fault>)
        requires
            man.wf(),
        ensures
            r == if man.store().body_lengths@.contains_key(self.id()) {
                Ok::<i16, Fault>(man.store().body_lengths@[self.id()])
            } else {
                Err::<i16, Fault>(
                    Fault::MissingComponent {
                        tag: self.which(),
                        component: Components::BodyLength,
                    },
                )
            },
    {
        match man.storage.body_lengths.get(self.id()) {
            Some(v) => Ok(*v),
            None => Err(
                Fault::MissingComponent { tag: self.which(), component: Components::BodyLength },
            ),
        }
    }

    pub fn set_body_length(&self, man: &mut EntityManager, body_length: i16) -> (r: Result<
        (),
        Fault,
    >)
        requires
            old(man).wf(),
        ensures
            final(man).wf(),
            r == if old(man).store().body_lengths@.contains_key(self.id()) {
                Ok::<(), Fault>(())
            } else {
                Err::<(), Fault>(
                    Fault::MissingComponent {
                        tag: self.which(),
                        component: Components::BodyLength,
                    },
                )
            },
            r is Ok ==> final(man).store().body_lengths@ == old(
                man,
            ).store().body_lengths@.insert(self.id(), body_length) && component_write_frame(
                &old(man).store(),
                &final(man).store(),
                self.id(),
                Components::BodyLength,
            ),
            r is Err ==> *final(man) == *old(man),
            frame_unchanged(old(man), final(man)),
            final(man).queues_unchanged(old(man)),
    {
        let ghost pre = *old(man);
        if man.storage.body_lengths.contains(self.id()) {
            man.storage.body_lengths.insert(self.id(), body_length);
            proof {
                view_setter_frame(pre, *man, self.id());
            }
            Ok(())
        } else {
            Err(Fault::MissingComponent { tag: self.which(), component: Components::BodyLength })
        }
    }

    pub fn get_self_destruct(&self, man: &EntityManager) -> (r: Result<i16, Fault>)
        requires
            man.wf(),
        ensures
            r == if man.store().self_destructs@.contains_key(self.id()) {
                Ok::<i16, Fault>(man.store().self_destructs@[self.id()])
            } else {
                Err::<i16, Fault>(
                    Fault::MissingComponent {
                        tag: self.which(),
                        component: Components::SelfDestruct,
                    },
                )
            },
    {
        match man.storage.self_destructs.get(self.id()) {
            Some(v) => Ok(*v),
            None => Err(
                Fault::MissingComponent {
                    tag: self.which(),
                    component: Components::SelfDestruct,
                },
            ),
        }
    }

    pub fn set_self_destruct(&self, man: &mut EntityManager, self_destruct: i16) -> (r: Result<
        (),
        Fault,
    >)
        requires
            old(man).wf(),
        ensures
            final(man).wf(),
            r == if old(man).store().self_destructs@.contains_key(self.id()) {
                Ok::<(), Fault>(())
            } else {
                Err::<(), Fault>(
                    Fault::MissingComponent {
                        tag: self.which(),
                        component: Components::SelfDestruct,
                    },
                )
            },
            r is Ok ==> final(man).store().self_destructs@ == old(
                man,
            ).store().self_destructs@.insert(self.id(), self_destruct) && component_write_frame(
                &old(man).store(),
                &final(man).store(),
                self.id(),
                Components::SelfDestruct,
            ),
            r is Err ==> *final(man) == *old(man),
            frame_unchanged(old(man), final(man)),
            final(man).queues_unchanged(old(man)),
    {
        let ghost pre = *old(man);
        if man.storage.self_destructs.contains(self.id()) {
            man.storage.self_destructs.insert(self.id(), self_destruct);
            proof {
                view_setter_frame(pre, *man, self.id());
            }
            Ok(())
        } else {
            Err(
                Fault::MissingComponent {
                    tag: self.which(),
                    component: Components::SelfDestruct,
                },
            )
        }
    }

    pub fn get_scale(&self, man: &EntityManager) -> (r: Result<Scale, Fault>)
        requires
            man.wf(),
        ensures
            r == if man.store().scales@.contains_key(self.id()) {
                Ok::<Scale, Fault>(man.store().scales@[self.id()])
            } else {
                Err::<Scale, Fault>(
                    Fault::MissingComponent { tag: self.which(), component: Components::Scale },
                )
            },
    {
        match man.storage.scales.get(self.id()) {
            Some(v) => Ok(*v),
            None => Err(
                Fault::MissingComponent { tag: self.which(), component: Components::Scale },
            ),
        }
    }

    pub fn set_scale(&self, man: &mut EntityManager, scale: Scale) -> (r: Result<(), Fault>)
        requires
            old(man).wf(),
        ensures
            final(man).wf(),
            r == if old(man).store().scales@.contains_key(self.id()) {
                Ok::<(), Fault>(())
            } else {
                Err::<(), Fault>(
                    Fault::MissingComponent { tag: self.which(), component: Components::Scale },
                )
            },
            r is Ok ==> final(man).store().scales@ == old(man).store().scales@.insert(
                self.id(),
                scale,
            ) && component_write_frame(
                &old(man).store(),
                &final(man).store(),
                self.id(),
                Components::Scale,
            ),
            r is Err ==> *final(man) == *old(man),
            frame_unchanged(old(man), final(man)),
            final(man).queues_unchanged(old(man)),
    {
        let ghost pre = *old(man);
        if man.storage.scales.contains(self.id()) {
            man.storage.scales.insert(self.id(), scale);
            proof {
                view_setter_frame(pre, *man, self.id());
            }
            Ok(())
        } else {
            Err(Fault::MissingComponent { tag: self.which(), component: Components::Scale })
        }
    }

    pub fn get_animation(&self, man: &EntityManager) -> (r: Result<crate::entity::Animation, Fault>)
        requires
            man.wf(),
        ensures
            r == if man.store().animations@.contains_key(self.id()) {
                Ok::<crate::entity::Animation, Fault>(man.store().animations@[self.id()])
            } else {
                Err::<crate::entity::Animation, Fault>(
                    Fault::MissingComponent {
                        tag: self.which(),
                        component: Components::Animation,
                    },
                )
            },
    {
        match man.storage.animations.get(self.id()) {
            Some(v) => Ok(*v),
            None => Err(
                Fault::MissingComponent { tag: self.which(), component: Components::Animation },
            ),
        }
    }

    pub fn set_animation(&self, man: &mut EntityManager, animation: crate::entity::Animation) -> (
    r: Result<(), Fault>)
        requires
            old(man).wf(),
        ensures
            final(man).wf(),
            r == if old(man).store().animations@.contains_key(self.id()) {
                Ok::<(), Fault>(())
            } else {
                Err::<(), Fault>(
                    Fault::MissingComponent {
                        tag: self.which(),
                        component: Components::Animation,
                    },
                )
            },
            r is Ok ==> final(man).store().animations@ == old(man).store().animations@.insert(
                self.id(),
                animation,
            ) && component_write_frame(
                &old(man).store(),
                &final(man).store(),
                self.id(),
                Components::Animation,
            ),
            r is Err ==> *final(man) == *old(man),
            frame_unchanged(old(man), final(man)),
            final(man).queues_unchanged(old(man)),
    {
        let ghost pre = *old(man);
        if man.storage.animations.contains(self.id()) {
            man.storage.animations.insert(self.id(), animation);
            proof {
                view_setter_frame(pre, *man, self.id());
            }
            Ok(())
        } else {
            Err(Fault::MissingComponent { tag: self.which(), component: Components::Animation })
        }
    }

    pub fn get_color(&self, man: &EntityManager) -> (r: Result<PaletteKey, Fault>)
        requires
            man.wf(),
        ensures
            r == if man.store().colors@.contains_key(self.id()) {
                Ok::<PaletteKey, Fault>(man.store().colors@[self.id()])
            } else {
                Err::<PaletteKey, Fault>(
                    Fault::MissingComponent { tag: self.which(), component: Components::Color },
                )
            },
    {
        match man.storage.colors.get(self.id()) {
            Some(v) => Ok(*v),
            None => Err(
                Fault::MissingComponent { tag: self.which(), component: Components::Color },
            ),
        }
    }

    pub fn set_color(&self, man: &mut EntityManager, color: PaletteKey) -> (r: Result<(), Fault>)
        requires
            old(man).wf(),
        ensures
            final(man).wf(),
            r == if old(man).store().colors@.contains_key(self.id()) {
                Ok::<(), Fault>(())
            } else {
                Err::<(), Fault>(
                    Fault::MissingComponent { tag: self.which(), component: Components::Color },
                )
            },
            r is Ok ==> final(man).store().colors@ == old(man).store().colors@.insert(
                self.id(),
                color,
            ) && component_write_frame(
                &old(man).store(),
                &final(man).store(),
                self.id(),
                Components::Color,
            ),
            r is Err ==> *final(man) == *old(man),
            frame_unchanged(old(man), final(man)),
            final(man).queues_unchanged(old(man)),
    {
        let ghost pre = *old(man);
        if man.storage.colors.contains(self.id()) {
            man.storage.colors.insert(self.id(), color);
            proof {
                view_setter_frame(pre, *man, self.id());
            }
            Ok(())
        } else {
            Err(Fault::MissingComponent { tag: self.which(), component: Components::Color })
        }
    }

    pub fn get_speed(&self, man: &EntityManager) -> (r: Result<Speed, Fault>)
        requires
            man.wf(),
        ensures
            r == if man.store().speeds@.contains_key(self.id()) {
                Ok::<Speed, Fault>(man.store().speeds@[self.id()])
            } else {
                Err::<Speed, Fault>(
                    Fault::MissingComponent { tag: self.which(), component: Components::Speed },
                )
            },
    {
        match man.storage.speeds.get(self.id()) {
            Some(v) => Ok(*v),
            None => Err(
                Fault::MissingComponent { tag: self.which(), component: Components::Speed },
            ),
        }
    }

    pub fn set_speed(&self, man: &mut EntityManager, speed: Speed) -> (r: Result<(), Fault>)
        requires
            old(man).wf(),
        ensures
            final(man).wf(),
            r == if old(man).store().speeds@.contains_key(self.id()) {
                Ok::<(), Fault>(())
            } else {
                Err::<(), Fault>(
                    Fault::MissingComponent { tag: self.which(), component: Components::Speed },
                )
            },
            r is Ok ==> final(man).store().speeds@ == old(man).store().speeds@.insert(
                self.id(),
                speed,
            ) && component_write_frame(
                &old(man).store(),
                &final(man).store(),
                self.id(),
                Components::Speed,
            ),
            r is Err ==> *final(man) == *old(man),
            frame_unchanged(old(man), final(man)),
            final(man).queues_unchanged(old(man)),
    {
        let ghost pre = *old(man);
        if man.storage.speeds.contains(self.id()) {
            man.storage.speeds.insert(self.id(), speed);
            proof {
                view_setter_frame(pre, *man, self.id());
            }
            Ok(())
        } else {
            Err(Fault::MissingComponent { tag: self.which(), component: Components::Speed })
        }
    }

    /// A copy of the timer component; write it back with `set_timer`.
    pub fn get_timer(&self, man: &EntityManager) -> (r: Result<Threshold, Fault>)
        requires
            man.wf(),
        ensures
            r == if man.store().timers@.contains_key(self.id()) {
                Ok::<Threshold, Fault>(man.store().timers@[self.id()])
            } else {
                Err::<Threshold, Fault>(
                    Fault::MissingComponent { tag: self.which(), component: Components::Timer },
                )
            },
    {
        match man.storage.timers.get(self.id()) {
            Some(v) => Ok(*v),
            None => Err(
                Fault::MissingComponent { tag: self.which(), component: Components::Timer },
            ),
        }
    }

    pub fn set_timer(&self, man: &mut EntityManager, timer: Threshold) -> (r: Result<(), Fault>)
        requires
            old(man).wf(),
        ensures
            final(man).wf(),
            r == if old(man).store().timers@.contains_key(self.id()) {
                Ok::<(), Fault>(())
            } else {
                Err::<(), Fault>(
                    Fault::MissingComponent { tag: self.which(), component: Components::Timer },
                )
            },
            r is Ok ==> final(man).store().timers@ == old(man).store().timers@.insert(
                self.id(),
                timer,
            ) && component_write_frame(
                &old(man).store(),
                &final(man).store(),
                self.id(),
                Components::Timer,
            ),
            r is Err ==> *final(man) == *old(man),
            frame_unchanged(old(man), final(man)),
            final(man).queues_unchanged(old(man)),
    {
        let ghost pre = *old(man);
        if man.storage.timers.contains(self.id()) {
            man.storage.timers.insert(self.id(), timer);
            proof {
                view_setter_frame(pre, *man, self.id());
            }
            Ok(())
        } else {
            Err(Fault::MissingComponent { tag: self.which(), component: Components::Timer })
        }
    }

    /// The latest pointer position the entity's input capability has seen.
    pub fn get_mouse(&self, man: &EntityManager) -> (r: Result<Vec2i, Fault>)
        requires
            man.wf(),
        ensures
            r == if man.store().keyboards@.contains_key(self.id()) {
                Ok::<Vec2i, Fault>(man.store().keyboards@[self.id()].mouse)
            } else {
                Err::<Vec2i, Fault>(
                    Fault::MissingComponent { tag: self.which(), component: Components::Input },
                )
            },
    {
        match man.storage.keyboards.get(self.id()) {
            Some(v) => Ok(v.get_mouse()),
            None => Err(
                Fault::MissingComponent { tag: self.which(), component: Components::Input },
            ),
        }
    }

    /// Takes the oldest undelivered key press from the entity's input
    /// queue, if any.
    pub fn get_key(&self, man: &mut EntityManager) -> (r: Result<Option<Key>, Fault>)
        requires
            old(man).wf(),
        ensures
            final(man).wf(),
            !old(man).store().keyboards@.contains_key(self.id()) ==> r == Err::<
                Option<Key>,
                Fault,
            >(Fault::MissingComponent { tag: self.which(), component: Components::Input })
                && *final(man) == *old(man),
            old(man).store().keyboards@.contains_key(self.id()) ==> {
                &&& r == Ok::<Option<Key>, Fault>(
                    if old(man).store().keyboards@[self.id()].keys@.len() > 0 {
                        Some(old(man).store().keyboards@[self.id()].keys@[0])
                    } else {
                        None
                    },
                )
                &&& final(man).store().keyboards@.contains_key(self.id())
                &&& final(man).store().keyboards@[self.id()].keys@ == if old(
                    man,
                ).store().keyboards@[self.id()].keys@.len() > 0 {
                    old(man).store().keyboards@[self.id()].keys@.drop_first()
                } else {
                    old(man).store().keyboards@[self.id()].keys@
                }
                &&& final(man).store().keyboards@[self.id()].mouse == old(
                    man,
                ).store().keyboards@[self.id()].mouse
                &&& component_write_frame(
                    &old(man).store(),
                    &final(man).store(),
                    self.id(),
                    Components::Input,
                )
            },
            frame_unchanged(old(man), final(man)),
            final(man).queues_unchanged(old(man)),
    {
        let ghost pre = *old(man);
        match man.storage.keyboards.index_of_key(self.id()) {
            Some(i) => {
                proof {
                    man.storage.keyboards.lemma_key_seq();
                    assert(man.storage.keyboards.key_seq()[i as int] == self.id());
                    assert(man.storage.keyboards.key_seq().contains(self.id()));
                    assert(man.storage.keyboards@.contains_key(self.id()));
                }
                let mut input = man.storage.keyboards.swap_val_at(i, crate::entity::Input::new());
                let k = input.get_key();
                man.storage.keyboards.set_val_at(i, input);
                proof {
                    assert(pre.storage.keyboards@.contains_key(self.id()));
                    view_setter_frame(pre, *man, self.id());
                }
                Ok(k)
            },
            None => Err(
                Fault::MissingComponent { tag: self.which(), component: Components::Input },
            ),
        }
    }

    /// Enqueues a kill request for this entity; removal happens when the
    /// current tick drains the kill queue, never immediately.
    pub fn kill(&self, man: &mut EntityManager)
        requires
            old(man).wf(),
        ensures
            final(man).wf(),
            final(man).kills() == old(man).kills().push(self.id()),
            final(man).spawns() == old(man).spawns(),
            final(man).collisions() == old(man).collisions(),
            final(man).sounds() == old(man).sounds(),
            final(man).keys_pending() == old(man).keys_pending(),
            final(man).mouse_pending() == old(man).mouse_pending(),
            frame_unchanged(old(man), final(man)),
            final(man).store() == old(man).store(),
    {
        man.kill_queue.push(self.id());
    }

    /// Enqueues a spawn request; only an entity holding the `Spawner`
    /// marker may ask for one.
    pub fn request_spawn(&self, man: &mut EntityManager, request: SpawnRequest) -> (r: Result<
        (),
        Fault,
    >)
        requires
            old(man).wf(),
        ensures
            final(man).wf(),
            old(man).store().spawners@.contains_key(self.id()) ==> r == Ok::<(), Fault>(())
                && final(man).spawns() == old(man).spawns().push(request),
            !old(man).store().spawners@.contains_key(self.id()) ==> r == Err::<(), Fault>(
                Fault::MissingComponent { tag: self.which(), component: Components::Spawner },
            ) && *final(man) == *old(man),
            final(man).kills() == old(man).kills(),
            final(man).collisions() == old(man).collisions(),
            final(man).sounds() == old(man).sounds(),
            final(man).keys_pending() == old(man).keys_pending(),
            final(man).mouse_pending() == old(man).mouse_pending(),
            frame_unchanged(old(man), final(man)),
            final(man).store() == old(man).store(),
    {
        if man.storage.spawners.contains(self.id()) {
            man.spawn_queue.push(request);
            Ok(())
        } else {
            Err(Fault::MissingComponent { tag: self.which(), component: Components::Spawner })
        }
    }

    /// Requests a sound through the entity's sound handle, fire and forget;
    /// only an entity holding the `Sound` component may ask for one.
    pub fn play_sound(&self, man: &mut EntityManager, sound: Sounds) -> (r: Result<(), Fault>)
        requires
            old(man).wf(),
        ensures
            final(man).wf(),
            old(man).store().sounds@.contains_key(self.id()) ==> r == Ok::<(), Fault>(())
                && final(man).sounds() == old(man).sounds().push(sound),
            !old(man).store().sounds@.contains_key(self.id()) ==> r == Err::<(), Fault>(
                Fault::MissingComponent { tag: self.which(), component: Components::Sound },
            ) && *final(man) == *old(man),
            final(man).kills() == old(man).kills(),
            final(man).spawns() == old(man).spawns(),
            final(man).collisions() == old(man).collisions(),
            final(man).keys_pending() == old(man).keys_pending(),
            final(man).mouse_pending() == old(man).mouse_pending(),
            frame_unchanged(old(man), final(man)),
            final(man).store() == old(man).store(),
    {
        if man.storage.sounds.contains(self.id()) {
            man.sound_queue.push(sound);
            Ok(())
        } else {
            Err(Fault::MissingComponent { tag: self.which(), component: Components::Sound })
        }
    }
}

/// The frame rule of a single-component write through a view: only `id`'s
/// entry in the one written kind moved; every other id and kind, and the
/// scan orders of the position and input tables, stayed put.
pub open spec fn component_write_frame(
    a: &Storages,
    b: &Storages,
    id: EntityId,
    c: Components,
) -> bool {
    &&& forall|c2: Components| c2 != c ==> kind_entry_unchanged(a, b, id, c2)
    &&& forall|id2: EntityId| id2 != id ==> b.entry_unchanged(a, id2)
    &&& b.positions.key_seq() == a.positions.key_seq()
    &&& b.keyboards.key_seq() == a.keyboards.key_seq()
}

proof fn view_setter_frame(pre: EntityManager, post: EntityManager, id: EntityId)
    requires
        pre.wf(),
        post.entities@ == pre.entities@,
        post.types@ == pre.types@,
        post.tracker == pre.tracker,
        post.issued@ == pre.issued@,
        post.storage.wf(),
        pre.storage.spec_has_entry(id),
        forall|id2: EntityId| id2 != id ==> post.storage.entry_unchanged(&pre.storage, id2),
    ensures
        post.wf(),
{
    assert(pre.entities@.contains(id));
    lemma_store_update_wf(pre, post, id);
}


impl EntityView {
    /// Binds `name` to `value` in the entity's property bag, rebinding
    /// freely; silently a no-op if the entity lacks the `Properties`
    /// marker.
    pub fn new_property(&self, man: &mut EntityManager, name: String, value: PropValue)
        requires
            old(man).wf(),
        ensures
            final(man).wf(),
            old(man).store().properties@.contains_key(self.id()) ==> {
                &&& final(man).store().properties@.contains_key(self.id())
                &&& final(man).store().properties@[self.id()]@ == old(
                    man,
                ).store().properties@[self.id()]@.insert(name@, value@)
                &&& component_write_frame(
                    &old(man).store(),
                    &final(man).store(),
                    self.id(),
                    Components::Properties,
                )
            },
            !old(man).store().properties@.contains_key(self.id()) ==> *final(man) == *old(man),
            frame_unchanged(old(man), final(man)),
            final(man).queues_unchanged(old(man)),
    {
        let ghost pre = *old(man);
        match man.storage.properties.index_of_key(self.id()) {
            Some(i) => {
                proof {
                    man.storage.properties.lemma_key_seq();
                    assert(man.storage.properties.key_seq()[i as int] == self.id());
                    assert(man.storage.properties.key_seq().contains(self.id()));
                    assert(man.storage.properties@.contains_key(self.id()));
                }
                let mut bag = man.storage.properties.swap_val_at(
                    i,
                    crate::props::PropBag::new(),
                );
                proof {
                    assert(bag == pre.storage.properties@[self.id()]);
                    assert(bag.wf());
                }
                bag.bind(name, value);
                let ghost bag_snap = bag;
                man.storage.properties.set_val_at(i, bag);
                proof {
                    assert(man.storage.properties@ =~= pre.storage.properties@.insert(
                        self.id(),
                        bag_snap,
                    ));
                    assert(bag_snap.wf());
                    restore_bag_wf(&pre.storage, &man.storage, self.id());
                    view_setter_frame(pre, *man, self.id());
                }
            },
            None => {},
        }
    }

    /// Unbinds `name`; a no-op if the name is unbound or the entity lacks
    /// the `Properties` marker.
    pub fn remove_property(&self, man: &mut EntityManager, name: &str)
        requires
            old(man).wf(),
        ensures
            final(man).wf(),
            old(man).store().properties@.contains_key(self.id()) ==> {
                &&& final(man).store().properties@.contains_key(self.id())
                &&& final(man).store().properties@[self.id()]@ == old(
                    man,
                ).store().properties@[self.id()]@.remove(name@)
                &&& component_write_frame(
                    &old(man).store(),
                    &final(man).store(),
                    self.id(),
                    Components::Properties,
                )
            },
            !old(man).store().properties@.contains_key(self.id()) ==> *final(man) == *old(man),
            frame_unchanged(old(man), final(man)),
            final(man).queues_unchanged(old(man)),
    {
        let ghost pre = *old(man);
        match man.storage.properties.index_of_key(self.id()) {
            Some(i) => {
                proof {
                    man.storage.properties.lemma_key_seq();
                    assert(man.storage.properties.key_seq()[i as int] == self.id());
                    assert(man.storage.properties.key_seq().contains(self.id()));
                    assert(man.storage.properties@.contains_key(self.id()));
                }
                let mut bag = man.storage.properties.swap_val_at(
                    i,
                    crate::props::PropBag::new(),
                );
                proof {
                    assert(bag == pre.storage.properties@[self.id()]);
                    assert(bag.wf());
                }
                bag.unbind(name);
                let ghost bag_snap = bag;
                man.storage.properties.set_val_at(i, bag);
                proof {
                    assert(man.storage.properties@ =~= pre.storage.properties@.insert(
                        self.id(),
                        bag_snap,
                    ));
                    assert(bag_snap.wf());
                    restore_bag_wf(&pre.storage, &man.storage, self.id());
                    view_setter_frame(pre, *man, self.id());
                }
            },
            None => {},
        }
    }

    /// Whether `name` is bound in the entity's property bag; false when the
    /// entity lacks the `Properties` marker.
    pub fn has_property(&self, man: &EntityManager, name: &str) -> (r: bool)
        requires
            man.wf(),
        ensures
            r == (man.store().properties@.contains_key(self.id())
                && man.store().properties@[self.id()]@.contains_key(name@)),
    {
        match man.storage.properties.get(self.id()) {
            Some(bag) => {
                proof {
                    assert(man.storage.properties@[self.id()].wf());
                }
                bag.has(name)
            },
            None => false,
        }
    }

    /// Reads the property bound to `name`, checking that it currently holds
    /// a value of the expected type: `MissingProperty` when the name is
    /// unbound (or the entity lacks the `Properties` marker), and
    /// `PropertyTypeMismatch` when the bound value's type tag differs from
    /// `kind`.
    pub fn get_property(&self, man: &EntityManager, name: &str, kind: crate::props::PropKind) -> (
    r: Result<PropValue, Fault>)
        requires
            man.wf(),
        ensures
            !(man.store().properties@.contains_key(self.id())
                && man.store().properties@[self.id()]@.contains_key(name@)) ==> r == Err::<
                PropValue,
                Fault,
            >(Fault::MissingProperty),
            man.store().properties@.contains_key(self.id())
                && man.store().properties@[self.id()]@.contains_key(name@) ==> {
                if crate::props::kind_of_view(man.store().properties@[self.id()]@[name@])
                    == kind {
                    r matches Ok(v) && v@ == man.store().properties@[self.id()]@[name@]
                } else {
                    r == Err::<PropValue, Fault>(Fault::PropertyTypeMismatch)
                }
            },
    {
        match man.storage.properties.get(self.id()) {
            Some(bag) => {
                proof {
                    assert(man.storage.properties@[self.id()].wf());
                }
                match bag.get(name) {
                    Some(v) => {
                        if v.kind() == kind {
                            Ok(v.duplicate())
                        } else {
                            Err(Fault::PropertyTypeMismatch)
                        }
                    },
                    None => Err(Fault::MissingProperty),
                }
            },
            None => Err(Fault::MissingProperty),
        }
    }

    /// Overwrites the property bound to `name` in place: `MissingProperty`
    /// when the name is unbound (or the entity lacks the `Properties`
    /// marker), and `PropertyTypeMismatch` when the bound value's type tag
    /// differs from the new value's.
    pub fn set_property(&self, man: &mut EntityManager, name: &str, value: PropValue) -> (r:
        Result<(), Fault>)
        requires
            old(man).wf(),
        ensures
            final(man).wf(),
            !old(man).store().properties@.contains_key(self.id()) ==> r == Err::<(), Fault>(
                Fault::MissingProperty,
            ) && *final(man) == *old(man),
            old(man).store().properties@.contains_key(self.id()) ==> {
                &&& final(man).store().properties@.contains_key(self.id())
                &&& component_write_frame(
                    &old(man).store(),
                    &final(man).store(),
                    self.id(),
                    Components::Properties,
                )
                &&& if !old(man).store().properties@[self.id()]@.contains_key(name@) {
                    r == Err::<(), Fault>(Fault::MissingProperty)
                        && final(man).store().properties@[self.id()]@
                        == old(man).store().properties@[self.id()]@
                } else if crate::props::kind_of_view(
                    old(man).store().properties@[self.id()]@[name@],
                ) != value.spec_kind() {
                    r == Err::<(), Fault>(Fault::PropertyTypeMismatch)
                        && final(man).store().properties@[self.id()]@
                        == old(man).store().properties@[self.id()]@
                } else {
                    r == Ok::<(), Fault>(())
                        && final(man).store().properties@[self.id()]@
                        == old(man).store().properties@[self.id()]@.insert(name@, value@)
                }
            },
            frame_unchanged(old(man), final(man)),
            final(man).queues_unchanged(old(man)),
    {
        let ghost pre = *old(man);
        match man.storage.properties.index_of_key(self.id()) {
            Some(i) => {
                proof {
                    man.storage.properties.lemma_key_seq();
                    assert(man.storage.properties.key_seq()[i as int] == self.id());
                    assert(man.storage.properties.key_seq().contains(self.id()));
                    assert(man.storage.properties@.contains_key(self.id()));
                }
                let mut bag = man.storage.properties.swap_val_at(
                    i,
                    crate::props::PropBag::new(),
                );
                proof {
                    assert(bag == pre.storage.properties@[self.id()]);
                    assert(bag.wf());
                }
                let verdict: Result<(), Fault> = match bag.get(name) {
                    Some(bound) => {
                        if bound.kind() == value.kind() {
                            Ok(())
                        } else {
                            Err(Fault::PropertyTypeMismatch)
                        }
                    },
                    None => Err(Fault::MissingProperty),
                };
                match verdict {
                    Ok(_) => {
                        bag.bind(name.to_owned(), value);
                        let ghost bag_snap = bag;
                        man.storage.properties.set_val_at(i, bag);
                        proof {
                            assert(man.storage.properties@ =~= pre.storage.properties@.insert(
                                self.id(),
                                bag_snap,
                            ));
                            assert(bag_snap.wf());
                            restore_bag_wf(&pre.storage, &man.storage, self.id());
                            view_setter_frame(pre, *man, self.id());
                        }
                        Ok(())
                    },
                    Err(f) => {
                        let ghost bag_snap = bag;
                        man.storage.properties.set_val_at(i, bag);
                        proof {
                            assert(bag_snap == pre.storage.properties@[self.id()]);
                            assert(man.storage.properties@ =~= pre.storage.properties@.insert(
                                self.id(),
                                bag_snap,
                            ));
                            assert(man.storage.properties@ =~= pre.storage.properties@);
                            assert(bag_snap.wf());
                            restore_bag_wf(&pre.storage, &man.storage, self.id());
                            view_setter_frame(pre, *man, self.id());
                        }
                        Err(f)
                    },
                }
            },
            None => Err(Fault::MissingProperty),
        }
    }
}

/// After one entity's bag is rebuilt, every bag in the table is still
/// well-formed provided the rebuilt one is.
proof fn restore_bag_wf(pre: &Storages, post: &Storages, id: EntityId)
    requires
        pre.wf(),
        post.positions == pre.positions,
        post.directions == pre.directions,
        post.colliders == pre.colliders,
        post.keyboards == pre.keyboards,
        post.body_lengths == pre.body_lengths,
        post.self_destructs == pre.self_destructs,
        post.scales == pre.scales,
        post.timers == pre.timers,
        post.spawners == pre.spawners,
        post.animations == pre.animations,
        post.colors == pre.colors,
        post.speeds == pre.speeds,
        post.sounds == pre.sounds,
        post.properties.wf(),
        pre.properties@.contains_key(id),
        exists|b: crate::props::PropBag|
            #[trigger] b.wf() && post.properties@ == pre.properties@.insert(id, b),
    ensures
        post.wf(),
        forall|id2: EntityId| id2 != id ==> post.entry_unchanged(pre, id2),
{
    let b = choose|b: crate::props::PropBag|
        #[trigger] b.wf() && post.properties@ == pre.properties@.insert(id, b);
    assert forall|id2: EntityId| #[trigger] post.properties@.contains_key(id2)
        implies post.properties@[id2].wf() by {
        if id2 != id {
            assert(post.properties@[id2] == pre.properties@[id2]);
        }
    }
}


/// The position a request's initializers leave behind: the last position
/// initializer, or the kind's default.
pub open spec fn init_position(inits: Seq<Init>) -> Position
    decreases inits.len(),
{
    if inits.len() == 0 {
        Position { x: 0, y: 0, z: 0 }
    } else {
        match inits.last() {
            Init::Position(p) => p,
            _ => init_position(inits.drop_last()),
        }
    }
}

/// The direction a request's initializers leave behind.
pub open spec fn init_direction(inits: Seq<Init>) -> crate::entity::Direction
    decreases inits.len(),
{
    if inits.len() == 0 {
        crate::entity::Direction::Still
    } else {
        match inits.last() {
            Init::Direction(d) => d,
            _ => init_direction(inits.drop_last()),
        }
    }
}

/// The scale a request's initializers leave behind.
pub open spec fn init_scale(inits: Seq<Init>) -> Scale
    decreases inits.len(),
{
    if inits.len() == 0 {
        Vec2i { x: crate::entity::SUBCELL, y: crate::entity::SUBCELL }
    } else {
        match inits.last() {
            Init::Scale(v) => v,
            _ => init_scale(inits.drop_last()),
        }
    }
}

/// The speed a request's initializers leave behind.
pub open spec fn init_speed(inits: Seq<Init>) -> Speed
    decreases inits.len(),
{
    if inits.len() == 0 {
        0
    } else {
        match inits.last() {
            Init::Speed(v) => v,
            _ => init_speed(inits.drop_last()),
        }
    }
}

/// The color a request's initializers leave behind.
pub open spec fn init_color(inits: Seq<Init>) -> PaletteKey
    decreases inits.len(),
{
    if inits.len() == 0 {
        PaletteKey::Blank
    } else {
        match inits.last() {
            Init::Color(v) => v,
            _ => init_color(inits.drop_last()),
        }
    }
}

/// The body length a request's initializers leave behind.
pub open spec fn init_body_length(inits: Seq<Init>) -> i16
    decreases inits.len(),
{
    if inits.len() == 0 {
        0
    } else {
        match inits.last() {
            Init::BodyLength(v) => v,
            _ => init_body_length(inits.drop_last()),
        }
    }
}

/// The lifetime counter a request's initializers leave behind.
pub open spec fn init_self_destruct(inits: Seq<Init>) -> i16
    decreases inits.len(),
{
    if inits.len() == 0 {
        0
    } else {
        match inits.last() {
            Init::SelfDestruct(v) => v,
            _ => init_self_destruct(inits.drop_last()),
        }
    }
}

/// The timer period a request's initializers leave behind.
pub open spec fn init_timer_threshold(inits: Seq<Init>) -> u64
    decreases inits.len(),
{
    if inits.len() == 0 {
        0
    } else {
        match inits.last() {
            Init::TimerThreshold(v) => v,
            _ => init_timer_threshold(inits.drop_last()),
        }
    }
}

/// The property bag a request's initializers build up, in order.
pub open spec fn props_after_inits(inits: Seq<Init>) -> Map<
    Seq<char>,
    crate::props::PropValueView,
>
    decreases inits.len(),
{
    if inits.len() == 0 {
        Map::empty()
    } else {
        let rest = props_after_inits(inits.drop_last());
        match inits.last() {
            Init::Property(n, v) => rest.insert(n@, v@),
            _ => rest,
        }
    }
}

/// What a freshly built entity's declared components hold after the given
/// prefix of a request's initializers ran: the last initializer of each
/// kind, or the kind's default; initializers for undeclared kinds fall away
/// silently.
pub open spec fn built_after(
    s: &Storages,
    id: EntityId,
    req: &SpawnRequest,
    inits: Seq<Init>,
) -> bool {
    &&& req.components@.contains(Components::Position) ==> s.positions@.contains_key(id)
        && s.positions@[id] == init_position(inits)
    &&& req.components@.contains(Components::Direction) ==> s.directions@.contains_key(id)
        && s.directions@[id] == init_direction(inits)
    &&& req.components@.contains(Components::Scale) ==> s.scales@.contains_key(id)
        && s.scales@[id] == init_scale(inits)
    &&& req.components@.contains(Components::Speed) ==> s.speeds@.contains_key(id) && s.speeds@[id]
        == init_speed(inits)
    &&& req.components@.contains(Components::Color) ==> s.colors@.contains_key(id) && s.colors@[id]
        == init_color(inits)
    &&& req.components@.contains(Components::BodyLength) ==> s.body_lengths@.contains_key(id)
        && s.body_lengths@[id] == init_body_length(inits)
    &&& req.components@.contains(Components::SelfDestruct) ==> s.self_destructs@.contains_key(id)
        && s.self_destructs@[id] == init_self_destruct(inits)
    &&& req.components@.contains(Components::Timer) ==> s.timers@.contains_key(id) && s.timers@[id]
        == (Threshold { acc: 0, threshold: init_timer_threshold(inits) })
    &&& req.components@.contains(Components::Properties) ==> s.properties@.contains_key(id)
        && s.properties@[id]@ == props_after_inits(inits)
    &&& req.components@.contains(Components::Collider) ==> s.colliders@.contains_key(id)
        && s.colliders@[id] == true
    &&& req.components@.contains(Components::Spawner) ==> s.spawners@.contains_key(id)
        && s.spawners@[id] == true
    &&& req.components@.contains(Components::Animation) ==> s.animations@.contains_key(id)
        && s.animations@[id] == crate::entity::Animation::Idle
    &&& req.components@.contains(Components::Input) ==> s.keyboards@.contains_key(id)
        && s.keyboards@[id].keys@ == Seq::<Key>::empty() && s.keyboards@[id].mouse == (Vec2i {
        x: 0,
        y: 0,
    })
    &&& req.components@.contains(Components::Sound) ==> s.sounds@.contains_key(id)
        && s.sounds@[id].pending@ == Seq::<Sounds>::empty()
}

/// What one executed spawn request leaves behind for its entity: entries
/// exactly for the declared kinds, each holding the last initializer of its
/// kind or its default.
pub open spec fn request_built(s: &Storages, id: EntityId, req: &SpawnRequest) -> bool {
    &&& forall|c: Components| !req.components@.contains(c) ==> !kind_contains(s, id, c)
    &&& built_after(s, id, req, req.inits@)
}

impl EntityManager {
    /// Executes one deferred spawn request now: spawns the entity with the
    /// requested tag and component kinds, then applies each initializer in
    /// order. An initializer for an undeclared kind falls away silently;
    /// position initializers run through the colliding position setter, so
    /// they can enqueue collision events naming the new entity.
    #[verifier::rlimit(100)]
    #[verifier::spinoff_prover]
    pub fn apply_request(&mut self, request: &SpawnRequest) -> (id: EntityId)
        requires
            old(self).wf(),
            old(self).next_id() < EntityId::MAX,
        ensures
            final(self).wf(),
            id == old(self).next_id(),
            !old(self).issued().contains(id),
            forall|j: int|
                0 <= j < old(self).directory().len() ==> #[trigger] old(self).directory()[j] < id,
            final(self).directory() == old(self).directory().push(id),
            final(self).tags() == old(self).tags().push(request.tag),
            final(self).next_id() == id + 1,
            final(self).issued() == old(self).issued().insert(id),
            request_built(&final(self).store(), id, request),
            forall|id2: EntityId| id2 != id
                ==> final(self).store().entry_unchanged(&old(self).store(), id2),
            final(self).kills() == old(self).kills(),
            final(self).spawns() == old(self).spawns(),
            final(self).sounds() == old(self).sounds(),
            final(self).keys_pending() == old(self).keys_pending(),
            final(self).mouse_pending() == old(self).mouse_pending(),
            old(self).collisions().is_prefix_of(final(self).collisions()),
            forall|k: int|
                old(self).collisions().len() <= k < final(self).collisions().len()
                    ==> (#[trigger] final(self).collisions()[k]).0 == id,
    {
        let ghost pre = *old(self);
        let id = self.spawn(request.tag, &request.components);
        let view = EntityView::make(id, request.tag);
        let ghost mid = *self;
        proof {
            assert(mid.collisions() =~= pre.collisions());
            assert(pre.collision_queue@.is_prefix_of(mid.collision_queue@));
            assert(request.inits@.take(0) =~= Seq::<Init>::empty());
            assert(built_after(&self.storage, id, request, request.inits@.take(0))) by {
                broadcast use vstd::seq_lib::group_seq_properties;

            }
        }
        let n = request.inits.len();
        let mut k: usize = 0;
        while k < n
            invariant
                self.wf(),
                n == request.inits@.len(),
                k <= n,
                view.id() == id,
                view.which() == request.tag,
                self.entities@ == mid.entities@,
                self.types@ == mid.types@,
                self.tracker == mid.tracker,
                self.issued@ == mid.issued@,
                self.kill_queue@ == mid.kill_queue@,
                self.spawn_queue@ == mid.spawn_queue@,
                self.sound_queue@ == mid.sound_queue@,
                self.pending_keys@ == mid.pending_keys@,
                self.pending_mouse@ == mid.pending_mouse@,
                pre.collision_queue@.is_prefix_of(self.collision_queue@),
                forall|j: int|
                    pre.collision_queue@.len() <= j < self.collision_queue@.len()
                        ==> (#[trigger] self.collision_queue@[j]).0 == id,
                forall|c: Components| kind_contains(&self.storage, id, c) == kind_contains(
                    &mid.storage,
                    id,
                    c,
                ),
                forall|c: Components| !request.components@.contains(c)
                    ==> !kind_contains(&self.storage, id, c),
                forall|id2: EntityId| id2 != id
                    ==> self.storage.entry_unchanged(&mid.storage, id2),
                built_after(&self.storage, id, request, request.inits@.take(k as int)),
            decreases n - k,
        {
            let ghost prev = *self;
            let ghost taken = request.inits@.take(k as int);
            let ghost taken1 = request.inits@.take(k as int + 1);
            self.apply_one_init(view, &request.inits[k]);
            proof {
                assert(taken1.drop_last() =~= taken);
                assert(taken1.last() == request.inits@[k as int]);
                lemma_built_step(
                    &prev.storage,
                    &self.storage,
                    id,
                    request,
                    taken,
                    request.inits@[k as int],
                );
                assert(taken.push(request.inits@[k as int]) =~= taken1);
                assert forall|id2: EntityId| id2 != id
                    implies self.storage.entry_unchanged(&mid.storage, id2) by {
                    assert(self.storage.entry_unchanged(&prev.storage, id2));
                    assert(prev.storage.entry_unchanged(&mid.storage, id2));
                }
                assert(pre.collision_queue@.is_prefix_of(self.collision_queue@)) by {
                    assert(pre.collision_queue@ =~= self.collision_queue@.subrange(
                        0,
                        pre.collision_queue@.len() as int,
                    ));
                }
                assert forall|j: int|
                    pre.collision_queue@.len() <= j < self.collision_queue@.len()
                    implies (#[trigger] self.collision_queue@[j]).0 == id by {
                    if j < prev.collision_queue@.len() {
                        assert(self.collision_queue@[j] == prev.collision_queue@[j]);
                    }
                }
            }
            k = k + 1;
        }
        proof {
            assert(request.inits@.take(n as int) =~= request.inits@);
            assert forall|c: Components| !request.components@.contains(c)
                implies !kind_contains(&self.storage, id, c) by {
                assert(!kind_contains(&mid.storage, id, c));
            }
            assert forall|id2: EntityId| id2 != id
                implies self.storage.entry_unchanged(&pre.storage, id2) by {
                assert(self.storage.entry_unchanged(&mid.storage, id2));
                assert(mid.storage.entry_unchanged(&pre.storage, id2));
            }
        }
        id
    }
}


/// No table's entry for `id` moved between two states.
pub open spec fn all_kinds_unchanged(a: &Storages, b: &Storages, id: EntityId) -> bool {
    forall|c: Components| kind_entry_unchanged(a, b, id, c)
}

/// What one initializer does to the entity being built: writes its kind's
/// entry when the kind was declared, and falls away silently otherwise.
pub open spec fn init_step(a: &Storages, b: &Storages, id: EntityId, init: Init) -> bool {
    match init {
        Init::Position(p) => if a.positions@.contains_key(id) {
            &&& b.positions@ == a.positions@.insert(id, p)
            &&& forall|c: Components| c != Components::Position ==> kind_entry_unchanged(
                a,
                b,
                id,
                c,
            )
        } else {
            all_kinds_unchanged(a, b, id)
        },
        Init::Direction(d) => if a.directions@.contains_key(id) {
            &&& b.directions@ == a.directions@.insert(id, d)
            &&& forall|c: Components| c != Components::Direction ==> kind_entry_unchanged(
                a,
                b,
                id,
                c,
            )
        } else {
            all_kinds_unchanged(a, b, id)
        },
        Init::Scale(v) => if a.scales@.contains_key(id) {
            &&& b.scales@ == a.scales@.insert(id, v)
            &&& forall|c: Components| c != Components::Scale ==> kind_entry_unchanged(a, b, id, c)
        } else {
            all_kinds_unchanged(a, b, id)
        },
        Init::Speed(v) => if a.speeds@.contains_key(id) {
            &&& b.speeds@ == a.speeds@.insert(id, v)
            &&& forall|c: Components| c != Components::Speed ==> kind_entry_unchanged(a, b, id, c)
        } else {
            all_kinds_unchanged(a, b, id)
        },
        Init::Color(v) => if a.colors@.contains_key(id) {
            &&& b.colors@ == a.colors@.insert(id, v)
            &&& forall|c: Components| c != Components::Color ==> kind_entry_unchanged(a, b, id, c)
        } else {
            all_kinds_unchanged(a, b, id)
        },
        Init::BodyLength(v) => if a.body_lengths@.contains_key(id) {
            &&& b.body_lengths@ == a.body_lengths@.insert(id, v)
            &&& forall|c: Components| c != Components::BodyLength ==> kind_entry_unchanged(
                a,
                b,
                id,
                c,
            )
        } else {
            all_kinds_unchanged(a, b, id)
        },
        Init::SelfDestruct(v) => if a.self_destructs@.contains_key(id) {
            &&& b.self_destructs@ == a.self_destructs@.insert(id, v)
            &&& forall|c: Components| c != Components::SelfDestruct ==> kind_entry_unchanged(
                a,
                b,
                id,
                c,
            )
        } else {
            all_kinds_unchanged(a, b, id)
        },
        Init::TimerThreshold(t) => if a.timers@.contains_key(id) {
            &&& b.timers@ == a.timers@.insert(
                id,
                Threshold { acc: a.timers@[id].acc, threshold: t },
            )
            &&& forall|c: Components| c != Components::Timer ==> kind_entry_unchanged(a, b, id, c)
        } else {
            all_kinds_unchanged(a, b, id)
        },
        Init::Property(n, v) => if a.properties@.contains_key(id) {
            &&& b.properties@.contains_key(id)
            &&& b.properties@[id]@ == a.properties@[id]@.insert(n@, v@)
            &&& forall|c: Components| c != Components::Properties ==> kind_entry_unchanged(
                a,
                b,
                id,
                c,
            )
        } else {
            all_kinds_unchanged(a, b, id)
        },
    }
}

/// One initializer advances the built-so-far picture by exactly one step.
#[verifier::rlimit(100)]
#[verifier::spinoff_prover]
proof fn lemma_built_step(
    a: &Storages,
    b: &Storages,
    id: EntityId,
    req: &SpawnRequest,
    taken: Seq<Init>,
    init: Init,
)
    requires
        built_after(a, id, req, taken),
        init_step(a, b, id, init),
        forall|c: Components| !req.components@.contains(c) ==> !kind_contains(a, id, c),
    ensures
        built_after(b, id, req, taken.push(init)),
{
    let taken1 = taken.push(init);
    assert(taken1.drop_last() =~= taken);
    assert(taken1.last() == init);
    assert(kind_entry_unchanged(a, b, id, Components::Position) ==> (a.positions@.contains_key(id)
        == b.positions@.contains_key(id) && (a.positions@.contains_key(id) ==> a.positions@[id]
        == b.positions@[id])));
    match init {
        Init::Position(_) => {
            if !a.positions@.contains_key(id) {
                assert(kind_entry_unchanged(a, b, id, Components::Position));
            }
        },
        Init::Direction(_) => {
            if !a.directions@.contains_key(id) {
                assert(kind_entry_unchanged(a, b, id, Components::Direction));
            }
        },
        Init::Scale(_) => {
            if !a.scales@.contains_key(id) {
                assert(kind_entry_unchanged(a, b, id, Components::Scale));
            }
        },
        Init::Speed(_) => {
            if !a.speeds@.contains_key(id) {
                assert(kind_entry_unchanged(a, b, id, Components::Speed));
            }
        },
        Init::Color(_) => {
            if !a.colors@.contains_key(id) {
                assert(kind_entry_unchanged(a, b, id, Components::Color));
            }
        },
        Init::BodyLength(_) => {
            if !a.body_lengths@.contains_key(id) {
                assert(kind_entry_unchanged(a, b, id, Components::BodyLength));
            }
        },
        Init::SelfDestruct(_) => {
            if !a.self_destructs@.contains_key(id) {
                assert(kind_entry_unchanged(a, b, id, Components::SelfDestruct));
            }
        },
        Init::TimerThreshold(_) => {
            if !a.timers@.contains_key(id) {
                assert(kind_entry_unchanged(a, b, id, Components::Timer));
            }
        },
        Init::Property(_, _) => {
            if !a.properties@.contains_key(id) {
                assert(kind_entry_unchanged(a, b, id, Components::Properties));
            }
        },
    }
    assert(kind_entry_unchanged(a, b, id, Components::Position) || init matches Init::Position(_));
    assert(kind_entry_unchanged(a, b, id, Components::Direction) || init matches Init::Direction(
        _,
    ));
    assert(kind_entry_unchanged(a, b, id, Components::Scale) || init matches Init::Scale(_));
    assert(kind_entry_unchanged(a, b, id, Components::Speed) || init matches Init::Speed(_));
    assert(kind_entry_unchanged(a, b, id, Components::Color) || init matches Init::Color(_));
    assert(kind_entry_unchanged(a, b, id, Components::BodyLength) || init
        matches Init::BodyLength(_));
    assert(kind_entry_unchanged(a, b, id, Components::SelfDestruct) || init
        matches Init::SelfDestruct(_));
    assert(kind_entry_unchanged(a, b, id, Components::Timer) || init matches Init::TimerThreshold(
        _,
    ));
    assert(kind_entry_unchanged(a, b, id, Components::Properties) || init matches Init::Property(
        _,
        _,
    ));
    assert(kind_entry_unchanged(a, b, id, Components::Collider));
    assert(kind_entry_unchanged(a, b, id, Components::Input));
    assert(kind_entry_unchanged(a, b, id, Components::Spawner));
    assert(kind_entry_unchanged(a, b, id, Components::Animation));
    assert(kind_entry_unchanged(a, b, id, Components::Sound));
}

impl EntityManager {
    /// Applies one initializer of a spawn request to the entity being
    /// built; an initializer whose kind was not declared falls away
    /// silently, and a position initializer may enqueue collision events
    /// naming the new entity.
    fn apply_one_init(&mut self, view: EntityView, init: &Init)
        requires
            old(self).wf(),
        ensures
            final(self).wf(),
            final(self).directory() == old(self).directory(),
            final(self).tags() == old(self).tags(),
            final(self).next_id() == old(self).next_id(),
            final(self).issued() == old(self).issued(),
            final(self).kills() == old(self).kills(),
            final(self).spawns() == old(self).spawns(),
            final(self).sounds() == old(self).sounds(),
            final(self).keys_pending() == old(self).keys_pending(),
            final(self).mouse_pending() == old(self).mouse_pending(),
            old(self).collisions().is_prefix_of(final(self).collisions()),
            forall|j: int|
                old(self).collisions().len() <= j < final(self).collisions().len()
                    ==> (#[trigger] final(self).collisions()[j]).0 == view.id(),
            forall|c: Components| kind_contains(&final(self).store(), view.id(), c)
                == kind_contains(&old(self).store(), view.id(), c),
            forall|id2: EntityId| id2 != view.id()
                ==> final(self).store().entry_unchanged(&old(self).store(), id2),
            init_step(&old(self).store(), &final(self).store(), view.id(), *init),
    {
        let ghost prev = *old(self);
        let id = view.id();
        match init {
            Init::Position(v) => {
                let r = self.init_set_position(view, *v);
            },
            Init::Direction(v) => {
                let r = view.set_direction(self, *v);
                proof {
                    init_frame_from_write(&prev.storage, &self.storage, id, Components::Direction);
                }
            },
            Init::Scale(v) => {
                let r = view.set_scale(self, *v);
                proof {
                    init_frame_from_write(&prev.storage, &self.storage, id, Components::Scale);
                }
            },
            Init::Speed(v) => {
                let r = view.set_speed(self, *v);
                proof {
                    init_frame_from_write(&prev.storage, &self.storage, id, Components::Speed);
                }
            },
            Init::Color(v) => {
                let r = view.set_color(self, *v);
                proof {
                    init_frame_from_write(&prev.storage, &self.storage, id, Components::Color);
                }
            },
            Init::BodyLength(v) => {
                let r = view.set_body_length(self, *v);
                proof {
                    init_frame_from_write(
                        &prev.storage,
                        &self.storage,
                        id,
                        Components::BodyLength,
                    );
                }
            },
            Init::SelfDestruct(v) => {
                let r = view.set_self_destruct(self, *v);
                proof {
                    init_frame_from_write(
                        &prev.storage,
                        &self.storage,
                        id,
                        Components::SelfDestruct,
                    );
                }
            },
            Init::TimerThreshold(t) => {
                match view.get_timer(self) {
                    Ok(timer) => {
                        let mut timer = timer;
                        timer.set_threshold(*t);
                        let r = view.set_timer(self, timer);
                        proof {
                            assert(r is Ok);
                            init_frame_from_write(
                                &prev.storage,
                                &self.storage,
                                id,
                                Components::Timer,
                            );
                        }
                    },
                    Err(_) => {
                        proof {
                            assert(*self == prev);
                            init_frame_noop(&prev.storage, id);
                        }
                    },
                }
            },
            Init::Property(nm, v) => {
                view.new_property(self, nm.clone(), v.duplicate());
                proof {
                    if prev.storage.properties@.contains_key(id) {
                        init_frame_from_write(
                            &prev.storage,
                            &self.storage,
                            id,
                            Components::Properties,
                        );
                    } else {
                        assert(*self == prev);
                        init_frame_noop(&prev.storage, id);
                    }
                }
            },
        }
    }

    /// Applies a position initializer through the colliding setter, keeping
    /// track of where the new collision events point.
    fn init_set_position(&mut self, view: EntityView, position: Position)
        requires
            old(self).wf(),
        ensures
            final(self).wf(),
            final(self).directory() == old(self).directory(),
            final(self).tags() == old(self).tags(),
            final(self).next_id() == old(self).next_id(),
            final(self).issued() == old(self).issued(),
            final(self).kills() == old(self).kills(),
            final(self).spawns() == old(self).spawns(),
            final(self).sounds() == old(self).sounds(),
            final(self).keys_pending() == old(self).keys_pending(),
            final(self).mouse_pending() == old(self).mouse_pending(),
            old(self).collisions().is_prefix_of(final(self).collisions()),
            forall|j: int|
                old(self).collisions().len() <= j < final(self).collisions().len()
                    ==> (#[trigger] final(self).collisions()[j]).0 == view.id(),
            forall|c: Components| kind_contains(&final(self).store(), view.id(), c)
                == kind_contains(&old(self).store(), view.id(), c),
            forall|id2: EntityId| id2 != view.id()
                ==> final(self).store().entry_unchanged(&old(self).store(), id2),
            init_step(
                &old(self).store(),
                &final(self).store(),
                view.id(),
                Init::Position(position),
            ),
    {
        let ghost prev = *old(self);
        let id = view.id();
        let r = view.set_position(self, position);
        proof {
            if prev.storage.positions@.contains_key(id) {
                assert(r is Ok);
                if prev.storage.colliders@.contains_key(id) {
                    prev.storage.lemma_scan_hits_source(
                        id,
                        crate::entity::spec_cell_of(position),
                        prev.storage.positions.key_seq(),
                    );
                }
                init_frame_from_write(&prev.storage, &self.storage, id, Components::Position);
            } else {
                assert(*self == prev);
                init_frame_noop(&prev.storage, id);
            }
        }
    }
}

/// A single-kind write keeps every other kind's presence for the written
/// id.
proof fn init_frame_from_write(a: &Storages, b: &Storages, id: EntityId, c: Components)
    requires
        forall|c2: Components| c2 != c ==> kind_entry_unchanged(a, b, id, c2),
        kind_contains(b, id, c) == kind_contains(a, id, c),
    ensures
        forall|c2: Components| kind_contains(b, id, c2) == kind_contains(a, id, c2),
{
    assert forall|c2: Components| kind_contains(b, id, c2) == kind_contains(a, id, c2) by {
        if c2 != c {
            assert(kind_entry_unchanged(a, b, id, c2));
        }
    }
}

/// A no-op trivially keeps every kind's entry.
proof fn init_frame_noop(a: &Storages, id: EntityId)
    ensures
        all_kinds_unchanged(a, a, id),
{
    assert forall|c2: Components| kind_entry_unchanged(a, a, id, c2) by {}
}


/// The directory and tags after a kill list is drained in order: each
/// listed id still present is removed, with its tag; stale ids fall away.
pub open spec fn after_kills(
    dir: Seq<EntityId>,
    tags: Seq<Entities>,
    kills: Seq<EntityId>,
) -> (Seq<EntityId>, Seq<Entities>)
    decreases kills.len(),
{
    if kills.len() == 0 {
        (dir, tags)
    } else {
        let prev = after_kills(dir, tags, kills.drop_last());
        if prev.0.contains(kills.last()) {
            let j = prev.0.index_of(kills.last());
            (prev.0.remove(j), prev.1.remove(j))
        } else {
            prev
        }
    }
}

/// The ids a run of spawn requests issues: `count` consecutive ids starting
/// at `start`.
pub open spec fn new_ids_seq(start: EntityId, count: int) -> Seq<EntityId> {
    Seq::new(count as nat, |l: int| (start + l) as EntityId)
}

/// The tags of a run of spawn requests, in order.
pub open spec fn request_tags(reqs: Seq<SpawnRequest>) -> Seq<Entities> {
    reqs.map_values(|r: SpawnRequest| r.tag)
}

/// LAW: draining a kill list removes every listed id from the directory,
/// so later lookups of a killed id find nothing, and keeps exactly the
/// other ids.
pub proof fn lemma_after_kills_membership(
    dir: Seq<EntityId>,
    tags: Seq<Entities>,
    kills: Seq<EntityId>,
)
    requires
        dir.no_duplicates(),
        dir.len() == tags.len(),
    ensures
        after_kills(dir, tags, kills).0.len() == after_kills(dir, tags, kills).1.len(),
        after_kills(dir, tags, kills).0.no_duplicates(),
        forall|id: EntityId| #[trigger] after_kills(dir, tags, kills).0.contains(id) == (
        dir.contains(id) && !kills.contains(id)),
    decreases kills.len(),
{
    if kills.len() == 0 {
    } else {
        let rest = kills.drop_last();
        lemma_after_kills_membership(dir, tags, rest);
        let prev = after_kills(dir, tags, rest);
        let cur = after_kills(dir, tags, kills);
        let victim = kills.last();
        assert forall|id: EntityId| #[trigger] kills.contains(id) == (rest.contains(id) || id
            == victim) by {
            if kills.contains(id) {
                let l = kills.index_of(id);
                if l < kills.len() - 1 {
                    assert(rest[l] == id);
                    assert(rest.contains(id));
                }
            }
            if rest.contains(id) {
                let l = rest.index_of(id);
                assert(kills[l] == id);
                assert(kills.contains(id));
            }
            if id == victim {
                assert(kills[kills.len() - 1] == id);
                assert(kills.contains(id));
            }
        }
        if prev.0.contains(victim) {
            let j = prev.0.index_of(victim);
            assert(prev.0[j] == victim);
            assert(cur.0 == prev.0.remove(j) && cur.1 == prev.1.remove(j));
            prev.0.remove_ensures(j);
            assert(cur.0.no_duplicates()) by {
                assert forall|a: int, b: int|
                    0 <= a < b < cur.0.len() implies cur.0[a] != cur.0[b] by {
                    let a0 = if a < j { a } else { a + 1 };
                    let b0 = if b < j { b } else { b + 1 };
                    assert(cur.0[a] == prev.0[a0] && cur.0[b] == prev.0[b0]);
                }
            }
            assert forall|id: EntityId| #[trigger] cur.0.contains(id) == (dir.contains(id)
                && !kills.contains(id)) by {
                if cur.0.contains(id) {
                    let l = cur.0.index_of(id);
                    let l0 = if l < j { l } else { l + 1 };
                    assert(cur.0[l] == prev.0[l0]);
                    assert(prev.0.contains(id));
                    assert(id != victim) by {
                        if l0 != j {
                            assert(prev.0[l0] != prev.0[j]);
                        }
                    }
                }
                if dir.contains(id) && !kills.contains(id) {
                    assert(prev.0.contains(id));
                    let l0 = prev.0.index_of(id);
                    assert(l0 != j);
                    let l = if l0 < j { l0 } else { l0 - 1 };
                    assert(cur.0[l] == prev.0[l0]);
                    assert(cur.0.contains(id));
                }
            }
        } else {
            assert(cur == prev);
            assert forall|id: EntityId| #[trigger] cur.0.contains(id) == (dir.contains(id)
                && !kills.contains(id)) by {
                if id == victim {
                    assert(!prev.0.contains(victim));
                }
            }
        }
    }
}

/// The collision pairs that survive re-resolution against a directory:
/// both ids still live, kept in queue order.
pub open spec fn surviving_pairs(
    dir: Seq<EntityId>,
    queue: Seq<(EntityId, EntityId)>,
) -> Seq<(EntityId, EntityId)>
    decreases queue.len(),
{
    if queue.len() == 0 {
        Seq::empty()
    } else {
        let rest = surviving_pairs(dir, queue.drop_last());
        if dir.contains(queue.last().0) && dir.contains(queue.last().1) {
            rest.push(queue.last())
        } else {
            rest
        }
    }
}

/// A surviving request keeps its built shape when nothing touches its
/// entity's entries.
proof fn lemma_request_built_preserved(
    a: &Storages,
    b: &Storages,
    id: EntityId,
    req: &SpawnRequest,
)
    requires
        request_built(a, id, req),
        b.entry_unchanged(a, id),
    ensures
        request_built(b, id, req),
{
    assert forall|c: Components| !req.components@.contains(c)
        implies !kind_contains(b, id, c) by {
        assert(!kind_contains(a, id, c));
    }
}

impl EntityManager {
    /// Phase one of the tick: fans every pending key press out to each
    /// input-holding entity, in delivery order, and broadcasts the latest
    /// pointer position.
    fn drain_input(&mut self)
        requires
            old(self).wf(),
        ensures
            final(self).wf(),
            final(self).directory() == old(self).directory(),
            final(self).tags() == old(self).tags(),
            final(self).next_id() == old(self).next_id(),
            final(self).issued() == old(self).issued(),
            final(self).kills() == old(self).kills(),
            final(self).spawns() == old(self).spawns(),
            final(self).collisions() == old(self).collisions(),
            final(self).sounds() == old(self).sounds(),
            final(self).keys_pending() == Seq::<Key>::empty(),
            final(self).mouse_pending() == Seq::<Vec2i>::empty(),
            forall|id: EntityId| final(self).store().keyboards@.contains_key(id) == old(
                self,
            ).store().keyboards@.contains_key(id),
            forall|id: EntityId| #[trigger] old(self).store().keyboards@.contains_key(id) ==> {
                &&& final(self).store().keyboards@[id].keys@ == old(
                    self,
                ).store().keyboards@[id].keys@ + old(self).keys_pending()
                &&& final(self).store().keyboards@[id].mouse == if old(
                    self,
                ).mouse_pending().len() > 0 {
                    old(self).mouse_pending().last()
                } else {
                    old(self).store().keyboards@[id].mouse
                }
            },
            crate::storages::only_keyboards_changed(&old(self).store(), &final(self).store()),
    {
        let ghost pre = *old(self);
        let mut keys: Vec<Key> = Vec::new();
        core::mem::swap(&mut keys, &mut self.pending_keys);
        let nk = keys.len();
        let mut i: usize = 0;
        while i < nk
            invariant
                self.storage.wf(),
                nk == keys@.len(),
                i <= nk,
                keys@ == pre.pending_keys@,
                self.entities@ == pre.entities@,
                self.types@ == pre.types@,
                self.tracker == pre.tracker,
                self.issued@ == pre.issued@,
                self.kill_queue@ == pre.kill_queue@,
                self.spawn_queue@ == pre.spawn_queue@,
                self.collision_queue@ == pre.collision_queue@,
                self.sound_queue@ == pre.sound_queue@,
                self.pending_keys@ == Seq::<Key>::empty(),
                self.pending_mouse@ == pre.pending_mouse@,
                forall|id: EntityId| self.storage.keyboards@.contains_key(id)
                    == pre.storage.keyboards@.contains_key(id),
                forall|id: EntityId| #[trigger] pre.storage.keyboards@.contains_key(id)
                    ==> self.storage.keyboards@[id].keys@ == pre.storage.keyboards@[id].keys@
                        + keys@.take(i as int) && self.storage.keyboards@[id].mouse
                        == pre.storage.keyboards@[id].mouse,
                crate::storages::only_keyboards_changed(&pre.storage, &self.storage),
            decreases nk - i,
        {
            let ghost prev = *self;
            self.storage.key_pressed(keys[i]);
            proof {
                assert forall|id: EntityId| #[trigger] pre.storage.keyboards@.contains_key(id)
                    implies self.storage.keyboards@[id].keys@ == pre.storage.keyboards@[id].keys@
                        + keys@.take(i + 1) && self.storage.keyboards@[id].mouse
                        == pre.storage.keyboards@[id].mouse by {
                    assert(prev.storage.keyboards@.contains_key(id));
                    assert(self.storage.keyboards@[id].keys@
                        == prev.storage.keyboards@[id].keys@.push(keys@[i as int]));
                    assert(pre.storage.keyboards@[id].keys@ + keys@.take(i + 1)
                        =~= (pre.storage.keyboards@[id].keys@ + keys@.take(i as int)).push(
                        keys@[i as int],
                    ));
                }
            }
            i = i + 1;
        }
        proof {
            assert(keys@.take(nk as int) =~= keys@);
            assert(self.pending_keys@ =~= Seq::<Key>::empty());
        }
        let ghost mid = *self;
        let mut mice: Vec<Vec2i> = Vec::new();
        core::mem::swap(&mut mice, &mut self.pending_mouse);
        let nm = mice.len();
        let mut j: usize = 0;
        while j < nm
            invariant
                self.storage.wf(),
                nm == mice@.len(),
                j <= nm,
                mice@ == pre.pending_mouse@,
                self.entities@ == mid.entities@,
                self.types@ == mid.types@,
                self.tracker == mid.tracker,
                self.issued@ == mid.issued@,
                self.kill_queue@ == mid.kill_queue@,
                self.spawn_queue@ == mid.spawn_queue@,
                self.collision_queue@ == mid.collision_queue@,
                self.sound_queue@ == mid.sound_queue@,
                self.pending_keys@ == Seq::<Key>::empty(),
                self.pending_mouse@ == Seq::<Vec2i>::empty(),
                forall|id: EntityId| self.storage.keyboards@.contains_key(id)
                    == mid.storage.keyboards@.contains_key(id),
                forall|id: EntityId| #[trigger] mid.storage.keyboards@.contains_key(id)
                    ==> self.storage.keyboards@[id].keys@ == mid.storage.keyboards@[id].keys@
                        && self.storage.keyboards@[id].mouse == if j > 0 {
                        mice@[j - 1]
                    } else {
                        mid.storage.keyboards@[id].mouse
                    },
                crate::storages::only_keyboards_changed(&mid.storage, &self.storage),
            decreases nm - j,
        {
            let ghost prev = *self;
            self.storage.mouse_moved(mice[j]);
            proof {
                assert forall|id: EntityId| #[trigger] mid.storage.keyboards@.contains_key(id)
                    implies self.storage.keyboards@[id].keys@ == mid.storage.keyboards@[id].keys@
                        && self.storage.keyboards@[id].mouse == mice@[j as int] by {
                    assert(prev.storage.keyboards@.contains_key(id));
                }
            }
            j = j + 1;
        }
        proof {
            assert(self.pending_mouse@ =~= Seq::<Vec2i>::empty());
            assert forall|id: EntityId| #[trigger] self.storage.spec_has_entry(id)
                implies self.entities@.contains(id) by {
                if !pre.storage.spec_has_entry(id) {
                    assert(!pre.storage.keyboards@.contains_key(id));
                    assert(!self.storage.keyboards@.contains_key(id));
                }
            }
        }
    }
    /// Phase three of the tick: drains the kill queue, removing each
    /// requested id from the directory and every storage; already-dead ids
    /// are dropped silently as stale references.
    fn drain_kills(&mut self)
        requires
            old(self).wf(),
        ensures
            final(self).wf(),
            final(self).next_id() == old(self).next_id(),
            final(self).issued() == old(self).issued(),
            final(self).kills() == Seq::<EntityId>::empty(),
            final(self).spawns() == old(self).spawns(),
            final(self).collisions() == old(self).collisions(),
            final(self).sounds() == old(self).sounds(),
            final(self).keys_pending() == old(self).keys_pending(),
            final(self).mouse_pending() == old(self).mouse_pending(),
            final(self).directory() == after_kills(
                old(self).directory(),
                old(self).tags(),
                old(self).kills(),
            ).0,
            final(self).tags() == after_kills(
                old(self).directory(),
                old(self).tags(),
                old(self).kills(),
            ).1,
            forall|id: EntityId| old(self).kills().contains(id) ==> final(self).store().spec_erased(id),
            forall|id: EntityId| !old(self).kills().contains(id) ==> final(self).store().entry_unchanged(&old(self).store(), id),
    {
        let ghost pre = *old(self);
        let mut kills: Vec<EntityId> = Vec::new();
        core::mem::swap(&mut kills, &mut self.kill_queue);
        let n = kills.len();
        let mut i: usize = 0;
        proof {
            assert(kills@.take(0) =~= Seq::<EntityId>::empty());
        }
        while i < n
            invariant
                self.wf(),
                n == kills@.len(),
                i <= n,
                kills@ == pre.kill_queue@,
                self.tracker == pre.tracker,
                self.issued@ == pre.issued@,
                self.kill_queue@ == Seq::<EntityId>::empty(),
                self.spawn_queue@ == pre.spawn_queue@,
                self.collision_queue@ == pre.collision_queue@,
                self.sound_queue@ == pre.sound_queue@,
                self.pending_keys@ == pre.pending_keys@,
                self.pending_mouse@ == pre.pending_mouse@,
                self.entities@ == after_kills(pre.entities@, pre.types@, kills@.take(i as int)).0,
                self.types@ == after_kills(pre.entities@, pre.types@, kills@.take(i as int)).1,
                forall|id: EntityId| kills@.take(i as int).contains(id)
                    ==> self.storage.spec_erased(id),
                forall|id: EntityId| !kills@.take(i as int).contains(id)
                    ==> self.storage.entry_unchanged(&pre.storage, id),
            decreases n - i,
        {
            let ghost prev = *self;
            let victim = kills[i];
            self.kill(victim);
            proof {
                assert(kills@.take(i + 1).drop_last() =~= kills@.take(i as int));
                assert(kills@.take(i + 1).last() == kills@[i as int]);
                assert forall|id: EntityId| #[trigger] kills@.take(i + 1).contains(id)
                    implies kills@.take(i as int).contains(id) || id == victim by {
                    let l = kills@.take(i + 1).index_of(id);
                    if l < i {
                        assert(kills@.take(i as int)[l] == id);
                    }
                }
                assert forall|id: EntityId| kills@.take(i as int).contains(id)
                    implies #[trigger] kills@.take(i + 1).contains(id) by {
                    let l = kills@.take(i as int).index_of(id);
                    assert(kills@.take(i + 1)[l] == id);
                }
                assert(kills@.take(i + 1)[i as int] == victim);
                assert(kills@.take(i + 1).contains(victim));
                if prev.entities@.contains(victim) {
                    let j = choose|j: int|
                        0 <= j < prev.entities@.len() && prev.entities@[j] == victim
                            && self.entities@ == prev.entities@.remove(j) && self.types@
                            == prev.types@.remove(j);
                    let j2 = prev.entities@.index_of(victim);
                    assert(prev.entities@[j2] == victim);
                    if j != j2 {
                        assert(prev.entities@[j] == prev.entities@[j2]);
                        assert(false);
                    }
                    assert(self.entities@ == after_kills(
                        pre.entities@,
                        pre.types@,
                        kills@.take(i + 1),
                    ).0);
                } else {
                    assert(self.entities@ == prev.entities@ && self.types@ == prev.types@);
                }
                assert forall|id: EntityId| kills@.take(i + 1).contains(id)
                    implies self.storage.spec_erased(id) by {
                    if id == victim {
                        assert(self.store().spec_erased(id));
                    } else {
                        assert(prev.storage.spec_erased(id));
                        assert(self.store().entry_unchanged(&prev.store(), id));
                        assert(self.storage.entry_unchanged(&prev.storage, id));
                    }
                }
                assert forall|id: EntityId| !kills@.take(i + 1).contains(id)
                    implies self.storage.entry_unchanged(&pre.storage, id) by {
                    assert(id != victim);
                    assert(self.store().entry_unchanged(&prev.store(), id));
                    assert(self.storage.entry_unchanged(&prev.storage, id));
                    assert(!kills@.take(i as int).contains(id));
                    assert(prev.storage.entry_unchanged(&pre.storage, id));
                }
            }
            i = i + 1;
        }
        proof {
            assert(kills@.take(n as int) =~= kills@);
        }
    }

    /// Phase four of the tick: executes every deferred spawn request, in
    /// order. Requests cannot enqueue further requests, so the queue is
    /// empty afterwards; position initializers may enqueue collision events
    /// naming the new entities, which phase five then resolves.
    fn drain_spawns(&mut self)
        requires
            old(self).wf(),
            old(self).next_id() + old(self).spawns().len() <= EntityId::MAX,
        ensures
            final(self).wf(),
            final(self).next_id() == old(self).next_id() + old(self).spawns().len(),
            forall|id: EntityId| final(self).issued().contains(id) == (old(
                self,
            ).issued().contains(id) || old(self).next_id() <= id < old(self).next_id() + old(
                self,
            ).spawns().len()),
            final(self).spawns() == Seq::<SpawnRequest>::empty(),
            final(self).kills() == old(self).kills(),
            final(self).sounds() == old(self).sounds(),
            final(self).keys_pending() == old(self).keys_pending(),
            final(self).mouse_pending() == old(self).mouse_pending(),
            old(self).collisions().is_prefix_of(final(self).collisions()),
            forall|k: int|
                old(self).collisions().len() <= k < final(self).collisions().len() ==> old(
                    self,
                ).next_id() <= (#[trigger] final(self).collisions()[k]).0 < old(self).next_id()
                    + old(self).spawns().len(),
            final(self).directory() == old(self).directory() + new_ids_seq(
                old(self).next_id(),
                old(self).spawns().len() as int,
            ),
            final(self).tags() == old(self).tags() + request_tags(old(self).spawns()),
            forall|id: EntityId| !(old(self).next_id() <= id < old(self).next_id() + old(
                self,
            ).spawns().len()) ==> final(self).store().entry_unchanged(&old(self).store(), id),
            forall|j: int| 0 <= j < old(self).spawns().len() ==> request_built(
                &final(self).store(),
                (old(self).next_id() + j) as EntityId,
                &old(self).spawns()[j],
            ),
    {
        let ghost pre = *old(self);
        let mut requests: Vec<SpawnRequest> = Vec::new();
        core::mem::swap(&mut requests, &mut self.spawn_queue);
        let n = requests.len();
        let mut i: usize = 0;
        proof {
            assert(self.entities@ =~= pre.entities@ + new_ids_seq(pre.tracker, 0));
            assert(self.types@ =~= pre.types@ + request_tags(requests@.take(0)));
        }
        while i < n
            invariant
                self.wf(),
                n == requests@.len(),
                i <= n,
                requests@ == pre.spawn_queue@,
                pre.tracker + n <= EntityId::MAX,
                self.tracker == pre.tracker + i,
                forall|id: EntityId| self.issued@.contains(id) == (pre.issued@.contains(id)
                    || pre.tracker <= id < pre.tracker + i),
                self.kill_queue@ == pre.kill_queue@,
                self.spawn_queue@ == Seq::<SpawnRequest>::empty(),
                self.sound_queue@ == pre.sound_queue@,
                self.pending_keys@ == pre.pending_keys@,
                self.pending_mouse@ == pre.pending_mouse@,
                pre.collision_queue@.is_prefix_of(self.collision_queue@),
                forall|k: int|
                    pre.collision_queue@.len() <= k < self.collision_queue@.len() ==> pre.tracker
                        <= (#[trigger] self.collision_queue@[k]).0 < pre.tracker + i,
                self.entities@ == pre.entities@ + new_ids_seq(pre.tracker, i as int),
                self.types@ == pre.types@ + request_tags(requests@.take(i as int)),
                forall|id: EntityId| !(pre.tracker <= id < pre.tracker + i)
                    ==> self.storage.entry_unchanged(&pre.storage, id),
                forall|j: int| 0 <= j < i ==> request_built(
                    &self.storage,
                    (pre.tracker + j) as EntityId,
                    &requests@[j],
                ),
            decreases n - i,
        {
            let ghost prev = *self;
            let id = self.apply_request(&requests[i]);
            proof {
                assert(id == pre.tracker + i);
                assert(self.entities@ == prev.entities@.push(id));
                assert(self.entities@ =~= pre.entities@ + new_ids_seq(pre.tracker, i + 1));
                assert(request_tags(requests@.take(i + 1)) =~= request_tags(
                    requests@.take(i as int),
                ).push(requests@[i as int].tag)) by {
                    assert(requests@.take(i + 1).drop_last() =~= requests@.take(i as int));
                }
                assert(self.types@ =~= pre.types@ + request_tags(requests@.take(i + 1)));
                assert forall|j: int| 0 <= j < i + 1
                    implies request_built(
                        &self.storage,
                        (pre.tracker + j) as EntityId,
                        &requests@[j],
                    ) by {
                    let idj = (pre.tracker + j) as EntityId;
                    if j < i {
                        assert(request_built(&prev.storage, idj, &requests@[j]));
                        assert(idj != id);
                        assert(self.store().entry_unchanged(&prev.store(), idj));
                        assert(self.storage.entry_unchanged(&prev.storage, idj));
                        lemma_request_built_preserved(
                            &prev.storage,
                            &self.storage,
                            idj,
                            &requests@[j],
                        );
                    }
                }
                assert forall|id2: EntityId| !(pre.tracker <= id2 < pre.tracker + i + 1)
                    implies self.storage.entry_unchanged(&pre.storage, id2) by {
                    assert(id2 != id);
                    assert(self.store().entry_unchanged(&prev.store(), id2));
                    assert(self.storage.entry_unchanged(&prev.storage, id2));
                    assert(!(pre.tracker <= id2 < pre.tracker + i));
                    assert(prev.storage.entry_unchanged(&pre.storage, id2));
                }
                assert(pre.collision_queue@.is_prefix_of(self.collision_queue@)) by {
                    assert(pre.collision_queue@ =~= self.collision_queue@.subrange(
                        0,
                        pre.collision_queue@.len() as int,
                    ));
                }
                assert forall|k: int|
                    pre.collision_queue@.len() <= k < self.collision_queue@.len()
                    implies pre.tracker <= (#[trigger] self.collision_queue@[k]).0 < pre.tracker
                        + i + 1 by {
                    if k < prev.collision_queue@.len() {
                        assert(self.collision_queue@[k] == prev.collision_queue@[k]);
                    }
                }
            }
            i = i + 1;
        }
        proof {
            assert(requests@.take(n as int) =~= requests@);
        }
    }

    /// Phase five of the tick: drains the collision queue, re-resolving
    /// both ids of each event through the directory; a pair that lost
    /// either side earlier in the tick is a stale reference and is dropped
    /// silently. The surviving pairs, in order, are handed to the external
    /// collision-resolution table.
    fn drain_collisions(&mut self) -> (out: Vec<(EntityView, EntityView)>)
        requires
            old(self).wf(),
        ensures
            final(self).wf(),
            final(self).directory() == old(self).directory(),
            final(self).tags() == old(self).tags(),
            final(self).next_id() == old(self).next_id(),
            final(self).issued() == old(self).issued(),
            final(self).kills() == old(self).kills(),
            final(self).spawns() == old(self).spawns(),
            final(self).collisions() == Seq::<(EntityId, EntityId)>::empty(),
            final(self).sounds() == old(self).sounds(),
            final(self).keys_pending() == old(self).keys_pending(),
            final(self).mouse_pending() == old(self).mouse_pending(),
            final(self).store() == old(self).store(),
            out@.len() == surviving_pairs(old(self).directory(), old(self).collisions()).len(),
            forall|l: int| 0 <= l < out@.len() ==> {
                let p = surviving_pairs(old(self).directory(), old(self).collisions())[l];
                (#[trigger] out@[l]).0.id() == p.0 && out@[l].0.which() == old(self).tag_of(p.0)
                    && out@[l].1.id() == p.1 && out@[l].1.which() == old(self).tag_of(p.1)
            },
    {
        let ghost pre = *old(self);
        let mut queue: Vec<(EntityId, EntityId)> = Vec::new();
        core::mem::swap(&mut queue, &mut self.collision_queue);
        let n = queue.len();
        let mut out: Vec<(EntityView, EntityView)> = Vec::new();
        let mut i: usize = 0;
        proof {
            assert(queue@.take(0) =~= Seq::<(EntityId, EntityId)>::empty());
            assert(self.collision_queue@ =~= Seq::<(EntityId, EntityId)>::empty());
        }
        while i < n
            invariant
                self.wf(),
                self.entities@ == pre.entities@,
                self.types@ == pre.types@,
                self.tracker == pre.tracker,
                self.issued@ == pre.issued@,
                self.kill_queue@ == pre.kill_queue@,
                self.spawn_queue@ == pre.spawn_queue@,
                self.collision_queue@ == Seq::<(EntityId, EntityId)>::empty(),
                self.sound_queue@ == pre.sound_queue@,
                self.pending_keys@ == pre.pending_keys@,
                self.pending_mouse@ == pre.pending_mouse@,
                self.storage == pre.storage,
                n == queue@.len(),
                i <= n,
                queue@ == pre.collision_queue@,
                out@.len() == surviving_pairs(pre.entities@, queue@.take(i as int)).len(),
                forall|l: int| 0 <= l < out@.len() ==> {
                    let p = surviving_pairs(pre.entities@, queue@.take(i as int))[l];
                    (#[trigger] out@[l]).0.id() == p.0 && out@[l].0.which() == pre.tag_of(p.0)
                        && out@[l].1.id() == p.1 && out@[l].1.which() == pre.tag_of(p.1)
                },
            decreases n - i,
        {
            let pair = queue[i];
            let va = self.view(pair.0);
            let vb = self.view(pair.1);
            proof {
                assert(queue@.take(i + 1).drop_last() =~= queue@.take(i as int));
                assert(queue@.take(i + 1).last() == queue@[i as int]);
            }
            match (va, vb) {
                (Some(ea), Some(eb)) => {
                    out.push((ea, eb));
                },
                _ => {},
            }
            i = i + 1;
        }
        proof {
            assert(queue@.take(n as int) =~= queue@);
        }
        out
    }

    /// One simulation tick: (1) pending input is fanned out to the
    /// input-holding entities; (2) every entity live at the start of the
    /// tick is dispatched to its archetype's tick behavior, in directory
    /// order — the returned trace records exactly who was dispatched, so an
    /// entity spawned later in this very tick is demonstrably not among
    /// them; (3) the kill queue is drained; (4) the spawn queue is drained,
    /// after the kills and before the collisions; (5) the collision queue
    /// is drained, and the pairs whose both sides survived are returned for
    /// the external resolution table.
    pub fn tick(&mut self, dt: u64) -> (r: (Vec<EntityView>, Vec<(EntityView, EntityView)>))
        requires
            old(self).wf(),
            old(self).next_id() + old(self).spawns().len() <= EntityId::MAX,
        ensures
            final(self).wf(),
            r.0@.len() == old(self).directory().len(),
            forall|i: int| 0 <= i < r.0@.len() ==> (#[trigger] r.0@[i]).id() == old(
                self,
            ).directory()[i] && r.0@[i].which() == old(self).tags()[i] && r.0@[i].id() < old(
                self,
            ).next_id(),
            final(self).next_id() == old(self).next_id() + old(self).spawns().len(),
            final(self).directory() == after_kills(
                old(self).directory(),
                old(self).tags(),
                old(self).kills(),
            ).0 + new_ids_seq(old(self).next_id(), old(self).spawns().len() as int),
            final(self).tags() == after_kills(
                old(self).directory(),
                old(self).tags(),
                old(self).kills(),
            ).1 + request_tags(old(self).spawns()),
            forall|id: EntityId| final(self).issued().contains(id) == (old(
                self,
            ).issued().contains(id) || old(self).next_id() <= id < old(self).next_id() + old(
                self,
            ).spawns().len()),
            forall|id: EntityId| old(self).kills().contains(id) && !(old(self).next_id() <= id
                < old(self).next_id() + old(self).spawns().len()) ==> final(self).store().spec_erased(id),
            forall|j: int| 0 <= j < old(self).spawns().len() ==> request_built(
                &final(self).store(),
                (old(self).next_id() + j) as EntityId,
                &old(self).spawns()[j],
            ),
            forall|id: EntityId| old(self).live(id) && !old(self).kills().contains(id) ==> {
                &&& (forall|c: Components| c != Components::Input ==> kind_entry_unchanged(
                    &old(self).store(),
                    &final(self).store(),
                    id,
                    c,
                ))
                &&& final(self).store().keyboards@.contains_key(id) == old(
                    self,
                ).store().keyboards@.contains_key(id)
                &&& (old(self).store().keyboards@.contains_key(id) ==> final(self).store().keyboards@[id].keys@ == old(self).store().keyboards@[id].keys@ + old(
                    self,
                ).keys_pending() && final(self).store().keyboards@[id].mouse == (if old(
                    self,
                ).mouse_pending().len() > 0 {
                    old(self).mouse_pending().last()
                } else {
                    old(self).store().keyboards@[id].mouse
                }))
            },
            final(self).kills() == Seq::<EntityId>::empty(),
            final(self).spawns() == Seq::<SpawnRequest>::empty(),
            final(self).collisions() == Seq::<(EntityId, EntityId)>::empty(),
            final(self).keys_pending() == Seq::<Key>::empty(),
            final(self).mouse_pending() == Seq::<Vec2i>::empty(),
            final(self).sounds() == old(self).sounds(),
            old(self).spawns().len() == 0 ==> r.1@.len() == surviving_pairs(
                final(self).directory(),
                old(self).collisions(),
            ).len() && (forall|l: int| 0 <= l < r.1@.len() ==> {
                let p = surviving_pairs(final(self).directory(), old(self).collisions())[l];
                (#[trigger] r.1@[l]).0.id() == p.0 && r.1@[l].0.which() == final(self).tag_of(p.0)
                    && r.1@[l].1.id() == p.1 && r.1@[l].1.which() == final(self).tag_of(p.1)
            }),
            exists|q: Seq<(EntityId, EntityId)>|
                {
                    &&& old(self).collisions().is_prefix_of(q)
                    &&& (forall|k: int|
                        old(self).collisions().len() <= k < q.len() ==> old(self).next_id() <= (
                        #[trigger] q[k]).0 < old(self).next_id() + old(self).spawns().len())
                    &&& r.1@.len() == surviving_pairs(final(self).directory(), q).len()
                    &&& (forall|l: int| 0 <= l < r.1@.len() ==> {
                        let p = surviving_pairs(final(self).directory(), q)[l];
                        (#[trigger] r.1@[l]).0.id() == p.0 && r.1@[l].0.which() == final(self).tag_of(p.0) && r.1@[l].1.id() == p.1 && r.1@[l].1.which() == final(self).tag_of(p.1)
                    })
                },
    {
        let ghost pre = *old(self);
        self.drain_input();
        let ghost s1 = *self;
        let mut ticked: Vec<EntityView> = Vec::new();
        let n = self.entities.len();
        let mut i: usize = 0;
        while i < n
            invariant
                self.wf(),
                *self == s1,
                n == self.entities@.len(),
                i <= n,
                ticked@.len() == i,
                forall|l: int| 0 <= l < i
                    ==> (#[trigger] ticked@[l]).id() == self.entities@[l] && ticked@[l].which()
                        == self.types@[l],
            decreases n - i,
        {
            let v = EntityView::make(self.entities[i], self.types[i]);
            v.which().tick(dt, v);
            ticked.push(v);
            i = i + 1;
        }
        proof {
            assert(s1.entities@ == pre.entities@ && s1.types@ == pre.types@);
            assert forall|l: int| 0 <= l < ticked@.len()
                implies (#[trigger] ticked@[l]).id() < pre.tracker by {
                assert(ticked@[l].id() == pre.entities@[l]);
            }
        }
        self.drain_kills();
        let ghost s2 = *self;
        self.drain_spawns();
        let ghost s3 = *self;
        let ghost q5 = self.collision_queue@;
        let out = self.drain_collisions();
        proof {
            assert(s2.entities@ == after_kills(pre.entities@, pre.types@, pre.kill_queue@).0);
            assert(s2.types@ == after_kills(pre.entities@, pre.types@, pre.kill_queue@).1);
            assert(s2.tracker == pre.tracker && s2.spawn_queue@ == pre.spawn_queue@);
            assert(self.entities@ == s3.entities@ && self.types@ == s3.types@);
            assert forall|id: EntityId|
                pre.live(id) && !pre.kills().contains(id)
                implies (forall|c: Components|
                c != Components::Input ==> kind_entry_unchanged(
                    &pre.storage,
                    &self.storage,
                    id,
                    c,
                )) && self.storage.keyboards@.contains_key(id)
                == pre.storage.keyboards@.contains_key(id) && (
            pre.storage.keyboards@.contains_key(id) ==> self.storage.keyboards@[id].keys@
                == pre.storage.keyboards@[id].keys@ + pre.keys_pending()
                && self.storage.keyboards@[id].mouse == (if pre.mouse_pending().len() > 0 {
                pre.mouse_pending().last()
            } else {
                pre.storage.keyboards@[id].mouse
            })) by {
                assert(!pre.kill_queue@.contains(id));
                assert(s2.store().entry_unchanged(&s1.store(), id));
                assert(s2.storage.entry_unchanged(&s1.storage, id));
                assert(id < pre.tracker) by {
                    let l = pre.entities@.index_of(id);
                    assert(pre.entities@.contains(id));
                    assert(pre.entities@[l] == id);
                }
                assert(!(s2.next_id() <= id < s2.next_id() + s2.spawns().len()));
                assert(s3.store().entry_unchanged(&s2.store(), id));
                assert(s3.storage.entry_unchanged(&s2.storage, id));
                assert(crate::storages::only_keyboards_changed(&pre.storage, &s1.storage));
                assert(s1.storage.keyboards@.contains_key(id)
                    == pre.storage.keyboards@.contains_key(id));
                assert forall|c: Components| c != Components::Input
                    implies kind_entry_unchanged(&pre.storage, &self.storage, id, c) by {}
            }
            assert forall|id: EntityId|
                pre.kills().contains(id) && !(pre.next_id() <= id < pre.next_id()
                    + pre.spawns().len())
                implies self.storage.spec_erased(id) by {
                assert(s2.store().spec_erased(id));
                assert(s2.storage.spec_erased(id));
                assert(s3.store().entry_unchanged(&s2.store(), id));
                assert(s3.storage.entry_unchanged(&s2.storage, id));
            }
            assert forall|j: int| 0 <= j < pre.spawns().len()
                implies request_built(
                    &self.storage,
                    (pre.next_id() + j) as EntityId,
                    &pre.spawns()[j],
                ) by {
                assert(request_built(
                    &s3.storage,
                    (s2.next_id() + j) as EntityId,
                    &s2.spawns()[j],
                ));
            }
            assert(pre.collisions().is_prefix_of(q5));
            assert(out@.len() == surviving_pairs(s3.directory(), q5).len());
            if pre.spawns().len() == 0 {
                assert(q5.len() <= pre.collisions().len());
                assert(q5 =~= pre.collisions());
            }
        }
        (ticked, out)
    }

}


impl EntityManager {
    /// LAW: entity ids are issued strictly increasing and never reused —
    /// every id ever issued is below the id the next spawn returns, every
    /// live id was issued, and the directory lists live ids in strictly
    /// increasing order. Together with `spawn`'s contract (it returns
    /// `next_id()`, marks it issued and moves past it) this pins the claim
    /// for every sequence of spawns and kills.
    pub proof fn lemma_ids_never_reused(&self)
        requires
            self.wf(),
        ensures
            forall|id: EntityId| self.issued().contains(id) ==> id < self.next_id(),
            forall|i: int| 0 <= i < self.directory().len() ==> self.issued().contains(
                #[trigger] self.directory()[i],
            ),
            forall|i: int, j: int|
                0 <= i < j < self.directory().len() ==> self.directory()[i] < self.directory()[j],
            self.directory().len() == self.tags().len(),
    {
    }
}

} // verus!
