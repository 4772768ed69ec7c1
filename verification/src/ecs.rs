use vstd::prelude::*;
use std::marker::PhantomData;
use crate::bit::set::BitSet;

verus! {

/// Used to reference an entity.
#[derive(Clone, Copy, Debug, PartialEq, Eq, Hash)]
pub struct Entity {
    id: usize,
    generation: u32,
}

impl Entity {
    /// The slot the entity lives in.
    pub closed spec fn spec_id(&self) -> nat {
        self.id as nat
    }

    /// How many times the slot had been reused when the entity was made.
    pub closed spec fn spec_generation(&self) -> u32 {
        self.generation
    }
}

/// Used to access components on an entity in an efficient way: it names
/// a component by its number.
pub struct Key<T> {
    id: usize,
    _t: PhantomData<T>,
}

impl<T> Clone for Key<T> {
    fn clone(&self) -> (k: Self)
        ensures
            k.spec_id() == self.spec_id(),
    {
        Key { id: self.id, _t: PhantomData }
    }
}

impl<T> Copy for Key<T> {}

impl<T> Key<T> {
    /// The number of the component.
    pub closed spec fn spec_id(&self) -> nat {
        self.id as nat
    }

    /// The key of component number `id`.
    pub fn new(id: usize) -> (k: Key<T>)
        ensures
            k.spec_id() == id,
    {
        Key { id, _t: PhantomData }
    }
}

/// Used to search for entities with the requested components.
pub struct Filter {
    bits: BitSet,
}

impl Filter {
    #[verifier::type_invariant]
    spec fn fits(&self) -> bool {
        self.bits.spec_capacity() <= usize::MAX
    }

    /// How many component numbers the filter has room for.
    pub closed spec fn spec_capacity(&self) -> nat {
        self.bits.spec_capacity()
    }

    /// The numbers of the components that the filter asks for.
    pub closed spec fn view(&self) -> Set<nat> {
        Set::new(|i: nat| i < self.bits@.len() && self.bits@[i as int])
    }

    /// Creates an empty filter, which matches everything.
    pub fn new() -> (f: Filter)
        ensures
            f@ == Set::<nat>::empty(),
    {
        let f = Filter { bits: BitSet::new(0) };
        proof {
            f.bits.lemma_view_len();
            assert(f@ =~= Set::<nat>::empty());
        }
        f
    }

    /// Adds the component to the filter.
    pub fn with<T>(self, key: Key<T>) -> (f: Self)
        requires
            key.spec_id() + 65 <= usize::MAX,
        ensures
            f@ == self@.insert(key.spec_id()),
    {
        proof {
            use_type_invariant(&self);
        }
        let mut bits = self.bits;
        proof {
            bits.lemma_view_len();
        }
        let ghost old_bits = bits;
        if bits.capacity() <= key.id {
            bits.resize(key.id + 1);
        }
        proof {
            bits.lemma_view_len();
        }
        let ghost mid = bits@;
        bits.set(key.id, true);
        let f = Filter { bits };
        proof {
            f.bits.lemma_view_len();
            assert forall|i: nat| f@.contains(i) == self@.insert(key.spec_id()).contains(i) by {
                if i != key.id && i < old_bits@.len() {
                    assert(mid[i as int] == old_bits@[i as int]);
                }
                if i != key.id && old_bits@.len() <= i < mid.len() {
                    assert(!mid[i as int]);
                }
            }
            assert(f@ =~= self@.insert(key.spec_id()));
        }
        f
    }
}


/// Whether `set` has every component that `filter` asks for, among the
/// component numbers that `set` has room for.
pub open spec fn includes(set: Seq<bool>, filter: &Filter) -> bool {
    forall|k: nat| #[trigger] filter@.contains(k) && k < set.len() ==> set[k as int]
}

/// How many entries of `s` are set.
pub open spec fn count_true(s: Seq<bool>) -> nat
    decreases s.len(),
{
    if s.len() == 0 {
        0
    } else {
        count_true(s.drop_last()) + if s.last() { 1nat } else { 0nat }
    }
}

proof fn lemma_count_true_le(s: Seq<bool>)
    ensures
        count_true(s) <= s.len(),
    decreases s.len(),
{
    if s.len() > 0 {
        lemma_count_true_le(s.drop_last());
    }
}

proof fn lemma_count_true_push_false(s: Seq<bool>)
    ensures
        count_true(s.push(false)) == count_true(s),
{
    assert(s.push(false).drop_last() =~= s);
}

proof fn lemma_count_true_set(s: Seq<bool>, k: int)
    requires
        0 <= k < s.len(),
        !s[k],
    ensures
        count_true(s.update(k, true)) == count_true(s) + 1,
    decreases s.len(),
{
    if k == s.len() - 1 {
        assert(s.update(k, true).drop_last() =~= s.drop_last());
    } else {
        lemma_count_true_set(s.drop_last(), k);
        assert(s.update(k, true).drop_last() =~= s.drop_last().update(k, true));
    }
}

/// The room a component set has after growing it to fit `n` components.
pub open spec fn grown(cap: nat, n: nat) -> nat {
    if cap >= ((n + 63) / 64) * 64 {
        cap
    } else {
        (((n + 63) / 64) * 64) as nat
    }
}

/// One entity's change as it is processed: the components it had when its
/// last change was processed, those it has now, and whether it is being
/// removed.
pub struct EntityChange {
    entity: Entity,
    last_components: BitSet,
    components: BitSet,
    removed: bool,
}

impl EntityChange {
    /// The entity that changed.
    pub closed spec fn spec_entity(&self) -> Entity {
        self.entity
    }

    /// The components it had when its last change was processed.
    pub closed spec fn before(&self) -> Seq<bool> {
        self.last_components@
    }

    /// The components it has now.
    pub closed spec fn after(&self) -> Seq<bool> {
        self.components@
    }

    /// Whether it is being removed.
    pub closed spec fn spec_removed(&self) -> bool {
        self.removed
    }

    /// The entity that changed.
    pub fn entity(&self) -> (e: Entity)
        ensures
            e == self.spec_entity(),
    {
        self.entity
    }

    /// Whether the entity is being removed.
    pub fn is_removed(&self) -> (b: bool)
        ensures
            b == self.spec_removed(),
    {
        self.removed
    }

    /// Whether a system that looks for `filter` gains the entity.
    pub fn added_for(&self, filter: &Filter) -> (b: bool)
        ensures
            b == (includes(self.after(), filter) && !includes(self.before(), filter)),
    {
        let now = includes_filter(&self.components, filter);
        let then = includes_filter(&self.last_components, filter);
        now && !then
    }

    /// Whether a system that looks for `filter` loses the entity.
    pub fn removed_for(&self, filter: &Filter) -> (b: bool)
        ensures
            b == (!includes(self.after(), filter) && includes(self.before(), filter)),
    {
        let now = includes_filter(&self.components, filter);
        let then = includes_filter(&self.last_components, filter);
        !now && then
    }

    /// The component numbers below `n` that the entity had and has no more,
    /// in increasing order: their values are to be dropped.
    pub fn dropped_components(&self, n: usize) -> (r: Vec<usize>)
        requires
            n <= self.before().len(),
            n <= self.after().len(),
        ensures
            forall|i: int| 0 <= i < r@.len() ==> {
                &&& (#[trigger] r@[i]) < n
                &&& self.before()[r@[i] as int]
                &&& !self.after()[r@[i] as int]
            },
            forall|i: int, j: int| 0 <= i < j < r@.len() ==> r@[i] < r@[j],
            forall|c: int| 0 <= c < n && self.before()[c] && !self.after()[c] ==>
                exists|i: int| 0 <= i < r@.len() && (#[trigger] r@[i]) == c,
    {
        let mut last = self.last_components.clone();
        let mut cur = self.components.clone();
        proof {
            last.lemma_view_len();
            cur.lemma_view_len();
        }
        let mut r: Vec<usize> = Vec::new();
        let mut c: usize = 0;
        while c < n
            invariant
                c <= n,
                n <= last@.len(),
                n <= cur@.len(),
                last@ == self.before(),
                cur@ == self.after(),
                last@.len() == last.spec_capacity(),
                cur@.len() == cur.spec_capacity(),
                forall|i: int| 0 <= i < r@.len() ==> {
                    &&& (#[trigger] r@[i]) < c
                    &&& self.before()[r@[i] as int]
                    &&& !self.after()[r@[i] as int]
                },
                forall|i: int, j: int| 0 <= i < j < r@.len() ==> r@[i] < r@[j],
                forall|d: int| 0 <= d < c && self.before()[d] && !self.after()[d] ==>
                    exists|i: int| 0 <= i < r@.len() && (#[trigger] r@[i]) == d,
            decreases n - c,
        {
            let ghost old_r = r@;
            let gone = !cur.get(c) && last.get(c);
            if gone {
                r.push(c);
            }
            proof {
                assert forall|d: int| 0 <= d < c + 1 && self.before()[d] && !self.after()[d] implies
                    exists|i: int| 0 <= i < r@.len() && (#[trigger] r@[i]) == d by {
                    if d < c {
                        let i = choose|i: int| 0 <= i < old_r.len() && (#[trigger] old_r[i]) == d;
                        assert(r@[i] == old_r[i]);
                    } else {
                        assert(r@[r@.len() - 1] == d);
                    }
                }
            }
            c = c + 1;
        }
        r
    }
}

/// Whether `set` has every component that `filter` asks for, comparing the
/// component numbers both have room for.
fn includes_filter(set: &BitSet, filter: &Filter) -> (b: bool)
    ensures
        b == includes(set@, filter),
{
    let b = set.includes_set(&filter.bits);
    proof {
        use_type_invariant(filter);
        set.lemma_view_len();
        filter.bits.lemma_view_len();
        if b {
            assert forall|k: nat| #[trigger] filter@.contains(k) && k < set@.len() implies set@[k as int] by {
                assert(filter.bits@[k as int]);
            }
        } else {
            let k = choose|k: int| !(0 <= k < set.spec_capacity() && k < filter.bits.spec_capacity()
                && #[trigger] filter.bits@[k] ==> set@[k]);
            assert(filter@.contains(k as nat));
        }
    }
    b
}

/// What the manager records of one live entity: the components it had when
/// its last change was processed, those it has now, and whether it is being
/// removed.
struct EntityState {
    last_components: BitSet,
    components: BitSet,
    removed: bool,
}

/// Stores and manages a collection of entities: which slots are in use, how
/// often each slot has been reused, and which components every live entity
/// has. Component values are kept by the caller, one store per component
/// type, under the numbers that keys carry.
pub struct Manager {
    num_components: usize,
    entities: Vec<(Option<EntityState>, u32)>,
    free_entities: Vec<usize>,
    component_types: Vec<bool>,
    changed_entity_components: Vec<Entity>,
}

impl Manager {
    /// Number of entity slots, used or free.
    pub closed spec fn slot_count(&self) -> nat {
        self.entities@.len()
    }

    /// How many times slot `id` has been reused.
    pub closed spec fn generation(&self, id: int) -> u32 {
        self.entities@[id].1
    }

    /// Whether slot `id` holds an entity.
    pub closed spec fn live(&self, id: int) -> bool {
        self.entities@[id].0 is Some
    }

    /// Whether the entity in slot `id` is being removed.
    pub closed spec fn removed(&self, id: int) -> bool {
        self.entities@[id].0->0.removed
    }

    /// The components the entity in slot `id` has now, by number.
    pub closed spec fn components(&self, id: int) -> Seq<bool> {
        self.entities@[id].0->0.components@
    }

    /// The components the entity in slot `id` had when its last change was
    /// processed.
    pub closed spec fn last_components(&self, id: int) -> Seq<bool> {
        self.entities@[id].0->0.last_components@
    }

    /// The free slots; the last one is reused first.
    pub closed spec fn free(&self) -> Seq<usize> {
        self.free_entities@
    }

    /// The entities whose components changed since their changes were last
    /// taken, each once.
    pub closed spec fn changed(&self) -> Seq<Entity> {
        self.changed_entity_components@
    }

    /// Number of component types that have been given storage.
    pub closed spec fn component_count(&self) -> nat {
        self.num_components as nat
    }

    /// For each component number, whether it has been given storage.
    pub closed spec fn component_types(&self) -> Seq<bool> {
        self.component_types@
    }

    /// Whether `e` refers to the entity that now lives in its slot.
    pub open spec fn valid(&self, e: Entity) -> bool {
        &&& e.spec_id() < self.slot_count()
        &&& self.generation(e.spec_id() as int) == e.spec_generation()
        &&& self.live(e.spec_id() as int)
    }

    /// Whether the entity in slot `id` has component `c` now.
    pub open spec fn has(&self, id: int, c: int) -> bool {
        0 <= c < self.components(id).len() && self.components(id)[c]
    }

    /// Whether the entity in slot `id` had component `c` when its last change
    /// was processed.
    pub open spec fn had(&self, id: int, c: int) -> bool {
        0 <= c < self.last_components(id).len() && self.last_components(id)[c]
    }

    /// Slot `id` records the same in `self` and in `other`.
    pub open spec fn same_slot(&self, other: &Manager, id: int) -> bool {
        &&& self.generation(id) == other.generation(id)
        &&& self.live(id) == other.live(id)
        &&& self.live(id) ==> {
            &&& self.removed(id) == other.removed(id)
            &&& self.components(id) == other.components(id)
            &&& self.last_components(id) == other.last_components(id)
        }
    }

    /// Whether component number `c` has been given storage.
    pub open spec fn registered(&self, c: int) -> bool {
        0 <= c < self.component_types().len() && self.component_types()[c]
    }

    /// The manager's bookkeeping is consistent: the world slot exists, the
    /// free list names exactly the empty slots, each once, and no entity is
    /// listed twice as changed.
    pub closed spec fn wf(&self) -> bool {
        &&& 1 <= self.entities@.len()
        &&& (self.component_types@.len() + 1) * 64 <= usize::MAX
        &&& self.num_components == count_true(self.component_types@)
        &&& self.free_entities@.no_duplicates()
        &&& forall|i: int| 0 <= i < self.free_entities@.len() ==>
            (#[trigger] self.free_entities@[i]) < self.entities@.len()
            && self.entities@[self.free_entities@[i] as int].0 is None
        &&& forall|id: int| 0 <= id < self.entities@.len() && (#[trigger] self.entities@[id]).0 is None
            ==> self.free_entities@.contains(id as usize)
        &&& forall|id: int| 0 <= id < self.entities@.len() && (#[trigger] self.entities@[id]).0 is Some ==> {
            &&& self.entities@[id].0->0.components.spec_capacity() + 64 <= usize::MAX
            &&& self.entities@[id].0->0.last_components.spec_capacity() + 64 <= usize::MAX
        }
        &&& self.changed_entity_components@.no_duplicates()
    }

    proof fn lemma_state_views(st: &EntityState)
        ensures
            st.components@.len() == st.components.spec_capacity(),
            st.last_components@.len() == st.last_components.spec_capacity(),
    {
        st.components.lemma_view_len();
        st.last_components.lemma_view_len();
    }

    /// Creates a manager whose only entity is the world entity, in slot 0,
    /// with no components.
    pub fn new() -> (m: Manager)
        ensures
            m.wf(),
            m.slot_count() == 1,
            m.live(0),
            m.generation(0) == 0,
            !m.removed(0),
            m.components(0) == Seq::<bool>::empty(),
            m.last_components(0) == Seq::<bool>::empty(),
            m.free() == Seq::<usize>::empty(),
            m.changed() == Seq::<Entity>::empty(),
            m.component_count() == 0,
            m.component_types() == Seq::<bool>::empty(),
    {
        let world = EntityState { last_components: BitSet::new(0), components: BitSet::new(0), removed: false };
        let mut entities: Vec<(Option<EntityState>, u32)> = Vec::new();
        entities.push((Some(world), 0));
        let m = Manager {
            num_components: 0,
            entities,
            free_entities: Vec::new(),
            component_types: Vec::new(),
            changed_entity_components: Vec::new(),
        };
        proof {
            Self::lemma_state_views(&m.entities@[0].0->0);
            assert(m.components(0) =~= Seq::<bool>::empty());
            assert(m.last_components(0) =~= Seq::<bool>::empty());
        }
        m
    }

    /// The world entity. It should never be removed.
    pub fn get_world(&self) -> (e: Entity)
        ensures
            e.spec_id() == 0,
            e.spec_generation() == 0,
    {
        Entity { id: 0, generation: 0 }
    }

    /// Whether `e` refers to the entity that now lives in its slot.
    pub fn is_entity_valid(&self, e: Entity) -> (b: bool)
        ensures
            b == self.valid(e),
    {
        if e.id < self.entities.len() {
            let slot = &self.entities[e.id];
            slot.1 == e.generation && slot.0.is_some()
        } else {
            false
        }
    }

    /// The value of component `key` of `entity`, kept in `mem`: `Some` where
    /// the key is registered and the entity exists and has the component.
    pub fn get_component<'a, T>(&self, entity: Entity, key: Key<T>, mem: &'a ComponentMem<T>) -> (r: Option<&'a T>)
        requires
            self.wf(),
            mem.wf(),
            self.registered(key.spec_id() as int) && self.valid(entity)
                ==> key.spec_id() < self.components(entity.spec_id() as int).len(),
            self.registered(key.spec_id() as int) && self.valid(entity)
                && self.has(entity.spec_id() as int, key.spec_id() as int)
                ==> mem@.contains_key(entity.spec_id() as nat),
        ensures
            r is Some <==> (self.registered(key.spec_id() as int) && self.valid(entity)
                && self.has(entity.spec_id() as int, key.spec_id() as int)),
            r matches Some(x) ==> *x == mem@[entity.spec_id() as nat],
    {
        let k = key.id;
        if self.component_types.len() <= k || !self.component_types[k] {
            return None;
        }
        if !self.is_entity_valid(entity) {
            return None;
        }
        let present = match &self.entities[entity.id].0 {
            Some(st) => {
                proof {
                    Self::lemma_state_views(st);
                }
                let mut bits = st.components.clone();
                bits.get(k)
            },
            None => false,
        };
        if present {
            Some(mem.get(entity.id))
        } else {
            None
        }
    }

    /// Allocates a new entity without any components. The most recently
    /// freed slot is reused first, one generation on; with none free, a new
    /// slot is added at the end.
    pub fn create_entity(&mut self) -> (e: Entity)
        requires
            old(self).wf(),
            old(self).free().len() == 0 ==> old(self).slot_count() < usize::MAX,
            old(self).free().len() > 0 ==> old(self).generation(old(self).free().last() as int) < u32::MAX,
        ensures
            final(self).wf(),
            old(self).free().len() > 0 ==> {
                &&& e.spec_id() == old(self).free().last()
                &&& e.spec_generation() == old(self).generation(e.spec_id() as int) + 1
                &&& final(self).free() == old(self).free().drop_last()
                &&& final(self).slot_count() == old(self).slot_count()
            },
            old(self).free().len() == 0 ==> {
                &&& e.spec_id() == old(self).slot_count()
                &&& e.spec_generation() == 0
                &&& final(self).free() == old(self).free()
                &&& final(self).slot_count() == old(self).slot_count() + 1
            },
            final(self).valid(e),
            !old(self).valid(e),
            !final(self).removed(e.spec_id() as int),
            final(self).components(e.spec_id() as int) == Seq::new(old(self).component_count() * 64, |i: int| false),
            final(self).last_components(e.spec_id() as int) == Seq::new(old(self).component_count() * 64, |i: int| false),
            forall|id: int| 0 <= id < old(self).slot_count() && id != e.spec_id() ==> final(self).same_slot(old(self), id),
            forall|x: Entity| old(self).valid(x) ==> final(self).valid(x),
            forall|x: Entity| x != e && !old(self).valid(x) ==> !final(self).valid(x),
            final(self).changed() == old(self).changed(),
            final(self).component_count() == old(self).component_count(),
            final(self).component_types() == old(self).component_types(),
    {
        let ghost old_free = self.free_entities@;
        proof {
            lemma_count_true_le(self.component_types@);
        }
        let n = self.num_components;
        let st = EntityState { last_components: BitSet::new(n), components: BitSet::new(n), removed: false };
        proof {
            Self::lemma_state_views(&st);
        }
        if self.free_entities.len() > 0 {
            let id = self.free_entities.pop().unwrap();
            assert(old_free[old_free.len() - 1] == id);
            let generation = self.entities[id].1 + 1;
            self.entities.set(id, (Some(st), generation));
            let e = Entity { id, generation };
            proof {
                assert(self.free_entities@ =~= old_free.drop_last());
                assert forall|i: int| 0 <= i < self.free_entities@.len() implies
                    (#[trigger] self.free_entities@[i]) < self.entities@.len()
                    && self.entities@[self.free_entities@[i] as int].0 is None by {
                    assert(old_free[i] != old_free[old_free.len() - 1]);
                }
                assert forall|j: int| 0 <= j < self.entities@.len() && (#[trigger] self.entities@[j]).0 is None
                    implies self.free_entities@.contains(j as usize) by {
                    assert(self.entities@[id as int].0 is Some);
                    assert(old(self).entities@[j].0 is None);
                    let k = choose|k: int| 0 <= k < old_free.len() && old_free[k] == j as usize;
                    assert(j < self.entities.len());
                    assert(k != old_free.len() - 1);
                    assert(self.free_entities@[k] == j as usize);
                }
                assert(self.components(id as int) =~= Seq::new(old(self).component_count() * 64, |i: int| false));
                assert(self.last_components(id as int) =~= Seq::new(old(self).component_count() * 64, |i: int| false));
            }
            return e;
        }
        let id = self.entities.len();
        self.entities.push((Some(st), 0));
        let e = Entity { id, generation: 0 };
        proof {
            assert(self.entities@[id as int].0 is Some);
            assert(self.components(id as int) =~= Seq::new(old(self).component_count() * 64, |i: int| false));
            assert(self.last_components(id as int) =~= Seq::new(old(self).component_count() * 64, |i: int| false));
            assert forall|j: int| 0 <= j < self.entities@.len() && (#[trigger] self.entities@[j]).0 is None
                implies self.free_entities@.contains(j as usize) by {
                assert(j < id);
                assert(old(self).entities@[j].0 is None);
            }
        }
        e
    }

    /// Takes the state out of live slot `id`, leaving the slot empty.
    fn take_state(&mut self, id: usize) -> (st: EntityState)
        requires
            id < old(self).entities@.len(),
            old(self).entities@[id as int].0 is Some,
        ensures
            st == old(self).entities@[id as int].0->0,
            final(self).entities@ == old(self).entities@.update(id as int, (None, old(self).entities@[id as int].1)),
            final(self).num_components == old(self).num_components,
            final(self).free_entities@ == old(self).free_entities@,
            final(self).component_types@ == old(self).component_types@,
            final(self).changed_entity_components@ == old(self).changed_entity_components@,
    {
        let mut slot: (Option<EntityState>, u32) = (None, self.entities[id].1);
        std::mem::swap(&mut slot, &mut self.entities[id]);
        slot.0.unwrap()
    }

    /// Records that `e` has changed, once.
    fn note_changed(&mut self, e: Entity)
        requires
            old(self).changed_entity_components@.no_duplicates(),
        ensures
            final(self).changed_entity_components@.no_duplicates(),
            final(self).changed_entity_components@ == if old(self).changed_entity_components@.contains(e) {
                old(self).changed_entity_components@
            } else {
                old(self).changed_entity_components@.push(e)
            },
            final(self).num_components == old(self).num_components,
            final(self).entities@ == old(self).entities@,
            final(self).free_entities@ == old(self).free_entities@,
            final(self).component_types@ == old(self).component_types@,
    {
        let mut i: usize = 0;
        while i < self.changed_entity_components.len()
            invariant
                i <= self.changed_entity_components@.len(),
                self.changed_entity_components@.no_duplicates(),
                forall|j: int| 0 <= j < i ==> self.changed_entity_components@[j] != e,
            decreases self.changed_entity_components@.len() - i,
        {
            let c = self.changed_entity_components[i];
            if c.id == e.id && c.generation == e.generation {
                assert(self.changed_entity_components@[i as int] == e);
                return;
            }
            i = i + 1;
        }
        self.changed_entity_components.push(e);
    }

    /// Marks the entity in `e`'s slot as removed and clears its components;
    /// the slot is freed when the change is processed. An empty slot is left
    /// alone. The generation of `e` is not compared with the slot's.
    pub fn remove_entity(&mut self, e: Entity)
        requires
            old(self).wf(),
            e.spec_id() < old(self).slot_count(),
        ensures
            final(self).wf(),
            final(self).slot_count() == old(self).slot_count(),
            final(self).free() == old(self).free(),
            final(self).component_count() == old(self).component_count(),
            final(self).component_types() == old(self).component_types(),
            forall|id: int| 0 <= id < old(self).slot_count() && id != e.spec_id() ==> final(self).same_slot(old(self), id),
            forall|x: Entity| final(self).valid(x) == old(self).valid(x),
            old(self).live(e.spec_id() as int) ==> {
                &&& final(self).generation(e.spec_id() as int) == old(self).generation(e.spec_id() as int)
                &&& final(self).live(e.spec_id() as int)
                &&& final(self).removed(e.spec_id() as int)
                &&& final(self).components(e.spec_id() as int)
                    == Seq::new(old(self).component_types().len() * 64, |i: int| false)
                &&& final(self).last_components(e.spec_id() as int) == old(self).last_components(e.spec_id() as int)
                &&& final(self).changed() == if old(self).changed().contains(e) {
                    old(self).changed()
                } else {
                    old(self).changed().push(e)
                }
            },
            !old(self).live(e.spec_id() as int) ==> {
                &&& final(self).same_slot(old(self), e.spec_id() as int)
                &&& final(self).changed() == old(self).changed()
            },
    {
        if self.entities[e.id].0.is_some() {
            let generation = self.entities[e.id].1;
            let mut st = self.take_state(e.id);
            st.components = BitSet::new(self.component_types.len());
            st.removed = true;
            proof {
                Self::lemma_state_views(&st);
            }
            self.entities.set(e.id, (Some(st), generation));
            self.note_changed(e);
            proof {
                assert(self.entities@ =~= old(self).entities@.update(e.spec_id() as int, (Some(st), generation)));
                assert(self.components(e.spec_id() as int)
                    =~= Seq::new(old(self).component_types().len() * 64, |i: int| false));
                assert forall|j: int| 0 <= j < self.entities@.len() && (#[trigger] self.entities@[j]).0 is None
                    implies self.free_entities@.contains(j as usize) by {
                    assert(old(self).entities@[j].0 is None);
                }
            }
        }
    }

    /// Whether the entity in slot `id` is one that `filter` finds: it is
    /// live, not being removed, and has every component the filter asks for.
    pub open spec fn matches(&self, id: int, filter: &Filter) -> bool {
        &&& self.live(id)
        &&& !self.removed(id)
        &&& includes(self.components(id), filter)
    }

    /// All entities, the world entity excepted, that `filter` finds, in slot
    /// order.
    pub fn find(&self, filter: &Filter) -> (r: Vec<Entity>)
        requires
            self.wf(),
        ensures
            forall|i: int| 0 <= i < r@.len() ==> {
                &&& 1 <= (#[trigger] r@[i]).spec_id() < self.slot_count()
                &&& r@[i].spec_generation() == self.generation(r@[i].spec_id() as int)
                &&& self.matches(r@[i].spec_id() as int, filter)
            },
            forall|i: int, j: int| 0 <= i < j < r@.len() ==> r@[i].spec_id() < r@[j].spec_id(),
            forall|id: int| 1 <= id < self.slot_count() && self.matches(id, filter) ==>
                exists|i: int| 0 <= i < r@.len() && (#[trigger] r@[i]).spec_id() == id,
    {
        let mut ret: Vec<Entity> = Vec::new();
        let mut i: usize = 1;
        while i < self.entities.len()
            invariant
                1 <= i <= self.entities@.len(),
                forall|k: int| 0 <= k < ret@.len() ==> {
                    &&& 1 <= (#[trigger] ret@[k]).spec_id() < i
                    &&& ret@[k].spec_generation() == self.generation(ret@[k].spec_id() as int)
                    &&& self.matches(ret@[k].spec_id() as int, filter)
                },
                forall|k: int, l: int| 0 <= k < l < ret@.len() ==> ret@[k].spec_id() < ret@[l].spec_id(),
                forall|id: int| 1 <= id < i && self.matches(id, filter) ==>
                    exists|k: int| 0 <= k < ret@.len() && (#[trigger] ret@[k]).spec_id() == id,
            decreases self.entities@.len() - i,
        {
            let slot = &self.entities[i];
            let mut found = false;
            match &slot.0 {
                Some(set) => {
                    if !set.removed {
                        found = includes_filter(&set.components, filter);
                    }
                },
                None => {},
            }
            assert(found == self.matches(i as int, filter));
            let ghost old_ret = ret@;
            if found {
                ret.push(Entity { id: i, generation: slot.1 });
            }
            proof {
                assert forall|id: int| 1 <= id < i + 1 && self.matches(id, filter) implies
                    exists|k: int| 0 <= k < ret@.len() && (#[trigger] ret@[k]).spec_id() == id by {
                    if id < i {
                        let k = choose|k: int| 0 <= k < old_ret.len() && (#[trigger] old_ret[k]).spec_id() == id;
                        assert(ret@[k] == old_ret[k]);
                    } else {
                        assert(ret@[ret@.len() - 1].spec_id() == id);
                    }
                }
            }
            i = i + 1;
        }
        ret
    }

    /// The component types after component number `c` has been given storage.
    pub open spec fn types_after(&self, c: nat) -> Seq<bool> {
        let t = self.component_types();
        let ext = if c < t.len() {
            t
        } else {
            t + Seq::new((c + 1 - t.len()) as nat, |i: int| false)
        };
        ext.update(c as int, true)
    }

    /// The room a component set of room `cap` has once component number `c`
    /// has been given storage.
    pub open spec fn room_after(&self, cap: nat, c: nat) -> nat {
        if self.registered(c as int) {
            cap
        } else {
            grown(cap, self.component_count() + 1)
        }
    }

    /// Slot `a` is slot `b` with its component sets grown to fit `n`
    /// components.
    spec fn slot_grown(a: (Option<EntityState>, u32), b: (Option<EntityState>, u32), n: nat) -> bool {
        &&& a.1 == b.1
        &&& a.0 is Some == b.0 is Some
        &&& b.0 is Some ==> {
            let (x, y) = (a.0->0, b.0->0);
            &&& x.removed == y.removed
            &&& x.components@.len() == grown(y.components@.len(), n)
            &&& x.last_components@.len() == grown(y.last_components@.len(), n)
            &&& x.components@.subrange(0, y.components@.len() as int) == y.components@
            &&& x.last_components@.subrange(0, y.last_components@.len() as int) == y.last_components@
            &&& forall|c: int| y.components@.len() <= c < x.components@.len() ==> !x.components@[c]
            &&& forall|c: int| y.last_components@.len() <= c < x.last_components@.len() ==> !x.last_components@[c]
            &&& x.components.spec_capacity() + 64 <= usize::MAX
            &&& x.last_components.spec_capacity() + 64 <= usize::MAX
            &&& x.components@.len() == x.components.spec_capacity()
            &&& x.last_components@.len() == x.last_components.spec_capacity()
        }
    }

    /// Grows the component sets of every live entity to fit `n` components.
    fn grow_all(&mut self, n: usize)
        requires
            old(self).wf(),
            n + 128 <= usize::MAX,
        ensures
            final(self).entities@.len() == old(self).entities@.len(),
            final(self).num_components == old(self).num_components,
            final(self).free_entities@ == old(self).free_entities@,
            final(self).component_types@ == old(self).component_types@,
            final(self).changed_entity_components@ == old(self).changed_entity_components@,
            forall|id: int| 0 <= id < old(self).entities@.len() ==>
                Self::slot_grown(#[trigger] final(self).entities@[id], old(self).entities@[id], n as nat),
    {
        let mut i: usize = 0;
        while i < self.entities.len()
            invariant
                n + 128 <= usize::MAX,
                i <= self.entities@.len(),
                self.entities@.len() == old(self).entities@.len(),
                self.num_components == old(self).num_components,
                self.free_entities@ == old(self).free_entities@,
                self.component_types@ == old(self).component_types@,
                self.changed_entity_components@ == old(self).changed_entity_components@,
                forall|id: int| i <= id < old(self).entities@.len() ==> self.entities@[id] == old(self).entities@[id],
                forall|id: int| 0 <= id < old(self).entities@.len() && (#[trigger] old(self).entities@[id]).0 is Some ==> {
                    &&& old(self).entities@[id].0->0.components.spec_capacity() + 64 <= usize::MAX
                    &&& old(self).entities@[id].0->0.last_components.spec_capacity() + 64 <= usize::MAX
                },
                forall|id: int| 0 <= id < i ==>
                    Self::slot_grown(#[trigger] self.entities@[id], old(self).entities@[id], n as nat),
            decreases self.entities@.len() - i,
        {
            if self.entities[i].0.is_some() {
                let generation = self.entities[i].1;
                let ghost before = self.entities@;
                let mut st = self.take_state(i);
                proof {
                    Self::lemma_state_views(&st);
                }
                let ghost old_st = st;
                st.last_components.resize(n);
                st.components.resize(n);
                proof {
                    Self::lemma_state_views(&st);
                    assert((((n + 63) / 64) * 64) as int <= n + 63) by (nonlinear_arith);
                    assert(st.components@.subrange(0, old_st.components@.len() as int) =~= old_st.components@);
                    assert(st.last_components@.subrange(0, old_st.last_components@.len() as int)
                        =~= old_st.last_components@);
                }
                self.entities.set(i, (Some(st), generation));
                proof {
                    assert forall|id: int| 0 <= id < i + 1 implies
                        Self::slot_grown(#[trigger] self.entities@[id], old(self).entities@[id], n as nat) by {
                        if id < i {
                            assert(self.entities@[id] == before[id]);
                        }
                    }
                }
            }
            i = i + 1;
        }
    }

    /// Gives the entity component number `key`. The first time a component
    /// number is used it gets storage, and the component sets of every live
    /// entity grow to fit the new count. The value itself is stored by the
    /// caller, under the same number.
    pub fn add_component<T>(&mut self, entity: Entity, key: Key<T>)
        requires
            old(self).wf(),
            (key.spec_id() + 3) * 64 <= usize::MAX,
            old(self).valid(entity),
            key.spec_id() < old(self).room_after(old(self).components(entity.spec_id() as int).len(), key.spec_id()),
            key.spec_id() < old(self).room_after(old(self).last_components(entity.spec_id() as int).len(), key.spec_id()),
            !old(self).has(entity.spec_id() as int, key.spec_id() as int),
            !old(self).had(entity.spec_id() as int, key.spec_id() as int),
        ensures
            final(self).wf(),
            final(self).slot_count() == old(self).slot_count(),
            final(self).free() == old(self).free(),
            forall|x: Entity| final(self).valid(x) == old(self).valid(x),
            final(self).component_types() == old(self).types_after(key.spec_id()),
            final(self).component_count() == old(self).component_count()
                + if old(self).registered(key.spec_id() as int) { 0nat } else { 1nat },
            forall|id: int| 0 <= id < old(self).slot_count() ==> {
                &&& final(self).generation(id) == old(self).generation(id)
                &&& final(self).live(id) == old(self).live(id)
                &&& old(self).live(id) ==> {
                    &&& final(self).removed(id) == old(self).removed(id)
                    &&& final(self).components(id).len()
                        == old(self).room_after(old(self).components(id).len(), key.spec_id())
                    &&& final(self).last_components(id).len()
                        == old(self).room_after(old(self).last_components(id).len(), key.spec_id())
                    &&& forall|c: int| (#[trigger] final(self).has(id, c))
                        == (old(self).has(id, c) || (id == entity.spec_id() && c == key.spec_id()))
                    &&& forall|c: int| (#[trigger] final(self).had(id, c)) == old(self).had(id, c)
                }
            },
            final(self).changed() == if old(self).changed().contains(entity) {
                old(self).changed()
            } else {
                old(self).changed().push(entity)
            },
    {
        let k = key.id;
        let ghost t0 = self.component_types@;
        let ghost e0 = self.entities@;
        while self.component_types.len() <= k
            invariant
                t0 == old(self).component_types@,
                t0.len() <= self.component_types@.len(),
                self.component_types@.len() <= k + 1 || self.component_types@ == t0,
                self.component_types@ == t0 + Seq::new((self.component_types@.len() - t0.len()) as nat, |i: int| false),
                count_true(self.component_types@) == count_true(t0),
                self.entities@ == old(self).entities@,
                self.num_components == old(self).num_components,
                self.free_entities@ == old(self).free_entities@,
                self.changed_entity_components@ == old(self).changed_entity_components@,
            decreases k + 1 - self.component_types@.len(),
        {
            let ghost before = self.component_types@;
            proof {
                lemma_count_true_push_false(before);
            }
            self.component_types.push(false);
            proof {
                assert(self.component_types@ =~= t0 + Seq::new((self.component_types@.len() - t0.len()) as nat, |i: int| false));
            }
        }
        proof {
            assert(self.component_types@ =~= if k < t0.len() {
                t0
            } else {
                t0 + Seq::new((k + 1 - t0.len()) as nat, |i: int| false)
            });
        }
        let registered = self.component_types[k];
        if !registered {
            proof {
                lemma_count_true_set(self.component_types@, k as int);
                lemma_count_true_le(self.component_types@);
            }
            self.component_types.set(k, true);
            self.num_components = self.num_components + 1;
            let n = self.num_components;
            self.grow_all(n);
        }
        let ghost grown_entities = self.entities@;
        let id = entity.id;
        let generation = self.entities[id].1;
        let mut st = self.take_state(id);
        proof {
            Self::lemma_state_views(&st);
        }
        let ghost st0 = st;
        st.components.set(k, true);
        proof {
            Self::lemma_state_views(&st);
        }
        self.entities.set(id, (Some(st), generation));
        self.note_changed(entity);
        proof {
            assert(self.entities@ =~= grown_entities.update(id as int, (Some(st), generation)));
            assert forall|j: int| 0 <= j < old(self).slot_count() implies {
                &&& self.generation(j) == old(self).generation(j)
                &&& self.live(j) == old(self).live(j)
                &&& old(self).live(j) ==> {
                    &&& self.removed(j) == old(self).removed(j)
                    &&& self.components(j).len() == old(self).room_after(old(self).components(j).len(), key.spec_id())
                    &&& self.last_components(j).len()
                        == old(self).room_after(old(self).last_components(j).len(), key.spec_id())
                    &&& forall|c: int| (#[trigger] self.has(j, c))
                        == (old(self).has(j, c) || (j == entity.spec_id() && c == key.spec_id()))
                    &&& forall|c: int| (#[trigger] self.had(j, c)) == old(self).had(j, c)
                }
            } by {
                if !registered {
                    assert(Self::slot_grown(grown_entities[j], e0[j], (old(self).num_components + 1) as nat));
                } else {
                    assert(grown_entities[j] == e0[j]);
                }
                if old(self).live(j) {
                    let g = grown_entities[j].0->0;
                    let o = e0[j].0->0;
                    assert forall|c: int| (#[trigger] self.has(j, c))
                        == (old(self).has(j, c) || (j == entity.spec_id() && c == key.spec_id())) by {
                        if 0 <= c < o.components@.len() {
                            assert(g.components@[c] == g.components@.subrange(0, o.components@.len() as int)[c]);
                        }
                    }
                    assert forall|c: int| (#[trigger] self.had(j, c)) == old(self).had(j, c) by {
                        if 0 <= c < o.last_components@.len() {
                            assert(g.last_components@[c] == g.last_components@.subrange(0, o.last_components@.len() as int)[c]);
                        }
                    }
                }
            }
            assert forall|j: int| 0 <= j < self.entities@.len() && (#[trigger] self.entities@[j]).0 is None
                implies self.free_entities@.contains(j as usize) by {
                assert(old(self).entities@[j].0 is None);
            }
        }
    }

    /// Takes component number `key` from the entity, returning whether it had
    /// it. The value is dropped by the caller once the change is processed.
    /// The entity must exist. Once a removal went through, the entity differs
    /// from its processed state in that component, so a second change of it
    /// before `finish_change` is not allowed.
    pub fn remove_component<T>(&mut self, entity: Entity, key: Key<T>) -> (r: bool)
        requires
            old(self).wf(),
            old(self).valid(entity),
            old(self).registered(key.spec_id() as int) ==> {
                &&& key.spec_id() < old(self).components(entity.spec_id() as int).len()
                &&& key.spec_id() < old(self).last_components(entity.spec_id() as int).len()
                &&& old(self).has(entity.spec_id() as int, key.spec_id() as int)
                    == old(self).had(entity.spec_id() as int, key.spec_id() as int)
            },
        ensures
            final(self).wf(),
            r == (old(self).registered(key.spec_id() as int) && old(self).has(entity.spec_id() as int, key.spec_id() as int)),
            old(self).registered(key.spec_id() as int) ==> !final(self).has(entity.spec_id() as int, key.spec_id() as int),
            r ==> final(self).had(entity.spec_id() as int, key.spec_id() as int),
            r ==> final(self).has(entity.spec_id() as int, key.spec_id() as int)
                != final(self).had(entity.spec_id() as int, key.spec_id() as int),
            final(self).components(entity.spec_id() as int).len() == old(self).components(entity.spec_id() as int).len(),
            final(self).slot_count() == old(self).slot_count(),
            final(self).free() == old(self).free(),
            final(self).component_count() == old(self).component_count(),
            final(self).component_types() == old(self).component_types(),
            forall|x: Entity| final(self).valid(x) == old(self).valid(x),
            forall|id: int| 0 <= id < old(self).slot_count() && !(r && id == entity.spec_id()) ==> final(self).same_slot(old(self), id),
            r ==> {
                &&& final(self).components(entity.spec_id() as int)
                    == old(self).components(entity.spec_id() as int).update(key.spec_id() as int, false)
                &&& final(self).last_components(entity.spec_id() as int) == old(self).last_components(entity.spec_id() as int)
                &&& final(self).removed(entity.spec_id() as int) == old(self).removed(entity.spec_id() as int)
                &&& final(self).live(entity.spec_id() as int)
                &&& final(self).generation(entity.spec_id() as int) == old(self).generation(entity.spec_id() as int)
                &&& final(self).changed() == if old(self).changed().contains(entity) {
                    old(self).changed()
                } else {
                    old(self).changed().push(entity)
                }
            },
            !r ==> final(self).changed() == old(self).changed(),
    {
        let k = key.id;
        if self.component_types.len() <= k {
            return false;
        }
        if !self.component_types[k] {
            return false;
        }
        let id = entity.id;
        let generation = self.entities[id].1;
        let mut st = self.take_state(id);
        proof {
            Self::lemma_state_views(&st);
        }
        if !st.components.get(k) {
            self.entities.set(id, (Some(st), generation));
            proof {
                assert(self.entities@ =~= old(self).entities@);
            }
            return false;
        }
        st.components.set(k, false);
        proof {
            Self::lemma_state_views(&st);
        }
        self.entities.set(id, (Some(st), generation));
        self.note_changed(entity);
        proof {
            assert forall|j: int| 0 <= j < self.entities@.len() && (#[trigger] self.entities@[j]).0 is None
                implies self.free_entities@.contains(j as usize) by {
                assert(old(self).entities@[j].0 is None);
            }
        }
        true
    }

    /// How many component numbers have a storage slot, given or not.
    pub fn component_slot_count(&self) -> (n: usize)
        ensures
            n == self.component_types().len(),
    {
        self.component_types.len()
    }

    /// Takes the entities whose components changed, leaving none recorded.
    pub fn take_changes(&mut self) -> (r: Vec<Entity>)
        requires
            old(self).wf(),
        ensures
            final(self).wf(),
            r@ == old(self).changed(),
            final(self).changed() == Seq::<Entity>::empty(),
            final(self).slot_count() == old(self).slot_count(),
            forall|id: int| 0 <= id < old(self).slot_count() ==> final(self).same_slot(old(self), id),
            final(self).free() == old(self).free(),
            final(self).component_count() == old(self).component_count(),
            final(self).component_types() == old(self).component_types(),
    {
        let mut r: Vec<Entity> = Vec::new();
        std::mem::swap(&mut r, &mut self.changed_entity_components);
        proof {
            assert(self.changed_entity_components@.no_duplicates());
        }
        r
    }

    /// Starts processing the change of `e`'s slot: until the change is
    /// finished, the entity shows both the components it had and those it
    /// has now, so that systems losing it can still read what it had.
    pub fn begin_change(&mut self, e: Entity) -> (ch: EntityChange)
        requires
            old(self).wf(),
            e.spec_id() < old(self).slot_count(),
            old(self).live(e.spec_id() as int),
        ensures
            final(self).wf(),
            ch.spec_entity() == e,
            ch.before() == old(self).last_components(e.spec_id() as int),
            ch.after() == old(self).components(e.spec_id() as int),
            ch.spec_removed() == old(self).removed(e.spec_id() as int),
            final(self).slot_count() == old(self).slot_count(),
            final(self).generation(e.spec_id() as int) == old(self).generation(e.spec_id() as int),
            final(self).live(e.spec_id() as int),
            final(self).removed(e.spec_id() as int) == old(self).removed(e.spec_id() as int),
            final(self).last_components(e.spec_id() as int) == old(self).last_components(e.spec_id() as int),
            final(self).components(e.spec_id() as int).len() == old(self).components(e.spec_id() as int).len(),
            forall|c: int| 0 <= c < old(self).components(e.spec_id() as int).len() ==>
                #[trigger] final(self).components(e.spec_id() as int)[c]
                    == (old(self).has(e.spec_id() as int, c) || old(self).had(e.spec_id() as int, c)),
            forall|id: int| 0 <= id < old(self).slot_count() && id != e.spec_id() ==> final(self).same_slot(old(self), id),
            forall|x: Entity| final(self).valid(x) == old(self).valid(x),
            final(self).changed() == old(self).changed(),
            final(self).free() == old(self).free(),
            final(self).component_count() == old(self).component_count(),
            final(self).component_types() == old(self).component_types(),
    {
        let id = e.id;
        let generation = self.entities[id].1;
        let mut st = self.take_state(id);
        proof {
            Self::lemma_state_views(&st);
        }
        let ch = EntityChange {
            entity: e,
            last_components: st.last_components.clone(),
            components: st.components.clone(),
            removed: st.removed,
        };
        st.components.or(&st.last_components);
        proof {
            Self::lemma_state_views(&st);
        }
        self.entities.set(id, (Some(st), generation));
        proof {
            assert forall|j: int| 0 <= j < self.entities@.len() && (#[trigger] self.entities@[j]).0 is None
                implies self.free_entities@.contains(j as usize) by {
                assert(old(self).entities@[j].0 is None);
            }
        }
        ch
    }

    /// Finishes processing the change `ch`: the entity now has, and last
    /// had, the components `ch` says it has after the change; a removed
    /// entity's slot is emptied and freed.
    pub fn finish_change(&mut self, ch: &EntityChange)
        requires
            old(self).wf(),
            ch.spec_entity().spec_id() < old(self).slot_count(),
            old(self).live(ch.spec_entity().spec_id() as int),
            ch.after().len() + 64 <= usize::MAX,
        ensures
            final(self).wf(),
            final(self).slot_count() == old(self).slot_count(),
            final(self).generation(ch.spec_entity().spec_id() as int) == old(self).generation(ch.spec_entity().spec_id() as int),
            ch.spec_removed() ==> {
                &&& !final(self).live(ch.spec_entity().spec_id() as int)
                &&& final(self).free() == old(self).free().push(ch.spec_entity().spec_id() as usize)
            },
            !ch.spec_removed() ==> {
                &&& final(self).live(ch.spec_entity().spec_id() as int)
                &&& final(self).components(ch.spec_entity().spec_id() as int) == ch.after()
                &&& final(self).last_components(ch.spec_entity().spec_id() as int) == ch.after()
                &&& final(self).removed(ch.spec_entity().spec_id() as int) == old(self).removed(ch.spec_entity().spec_id() as int)
                &&& final(self).free() == old(self).free()
            },
            forall|id: int| 0 <= id < old(self).slot_count() && id != ch.spec_entity().spec_id() ==>
                final(self).same_slot(old(self), id),
            forall|x: Entity| final(self).valid(x)
                == (old(self).valid(x) && !(ch.spec_removed() && x.spec_id() == ch.spec_entity().spec_id())),
            final(self).changed() == old(self).changed(),
            final(self).component_count() == old(self).component_count(),
            final(self).component_types() == old(self).component_types(),
    {
        let id = ch.entity.id;
        let generation = self.entities[id].1;
        let mut st = self.take_state(id);
        st.components = ch.components.clone();
        st.last_components = st.components.clone();
        proof {
            Self::lemma_state_views(&st);
            ch.components.lemma_view_len();
        }
        if ch.removed {
            self.free_entities.push(id);
            proof {
                assert(!old(self).free_entities@.contains(id));
                assert forall|i: int| 0 <= i < self.free_entities@.len() implies
                    (#[trigger] self.free_entities@[i]) < self.entities@.len()
                    && self.entities@[self.free_entities@[i] as int].0 is None by {
                    if i < old(self).free_entities@.len() {
                        assert(self.free_entities@[i] == old(self).free_entities@[i]);
                    }
                }
                assert forall|j: int| 0 <= j < self.entities@.len() && (#[trigger] self.entities@[j]).0 is None
                    implies self.free_entities@.contains(j as usize) by {
                    if j != id as int {
                        assert(old(self).entities@[j].0 is None);
                        let k = choose|k: int| 0 <= k < old(self).free_entities@.len()
                            && old(self).free_entities@[k] == j as usize;
                        assert(self.free_entities@[k] == j as usize);
                    } else {
                        assert(self.free_entities@[self.free_entities@.len() - 1] == id);
                    }
                }
            }
        } else {
            self.entities.set(id, (Some(st), generation));
            proof {
                assert forall|j: int| 0 <= j < self.entities@.len() && (#[trigger] self.entities@[j]).0 is None
                    implies self.free_entities@.contains(j as usize) by {
                    assert(old(self).entities@[j].0 is None);
                }
            }
        }
    }
}


/// How many entity slots one block of component storage covers.
pub const COMPONENTS_PER_BLOCK: usize = 64;

/// How many entries of `s` hold a value.
pub open spec fn count_some<T>(s: Seq<Option<T>>) -> nat
    decreases s.len(),
{
    if s.len() == 0 {
        0
    } else {
        count_some(s.drop_last()) + if s.last() is Some { 1nat } else { 0nat }
    }
}

proof fn lemma_count_some_update<T>(s: Seq<Option<T>>, k: int, v: Option<T>)
    requires
        0 <= k < s.len(),
    ensures
        count_some(s.update(k, v)) + (if s[k] is Some { 1nat } else { 0nat })
            == count_some(s) + (if v is Some { 1nat } else { 0nat }),
    decreases s.len(),
{
    if k == s.len() - 1 {
        assert(s.update(k, v).drop_last() =~= s.drop_last());
    } else {
        lemma_count_some_update(s.drop_last(), k, v);
        assert(s.update(k, v).drop_last() =~= s.drop_last().update(k, v));
    }
}

proof fn lemma_count_some_none<T>(n: nat)
    ensures
        count_some(Seq::new(n, |i: int| None::<T>)) == 0,
    decreases n,
{
    if n > 0 {
        assert(Seq::new(n, |i: int| None::<T>).drop_last() =~= Seq::new((n - 1) as nat, |i: int| None::<T>));
        lemma_count_some_none::<T>((n - 1) as nat);
    }
}

proof fn lemma_count_some_zero<T>(s: Seq<Option<T>>, k: int)
    requires
        count_some(s) == 0,
        0 <= k < s.len(),
    ensures
        s[k] is None,
    decreases s.len(),
{
    if k < s.len() - 1 {
        lemma_count_some_zero(s.drop_last(), k);
    }
}

/// The values of one component type, by entity slot. Slots are grouped in
/// blocks of `COMPONENTS_PER_BLOCK`; a block is allocated when its first
/// value arrives and dropped when its last value leaves.
pub struct ComponentMem<T> {
    data: Vec<Option<(Vec<Option<T>>, usize)>>,
}

impl<T> ComponentMem<T> {
    /// Block `b`, when allocated.
    spec fn block(&self, b: int) -> (Vec<Option<T>>, usize) {
        self.data@[b]->0
    }

    /// The value stored for slot `index`, if any.
    spec fn entry(&self, index: int) -> Option<T> {
        let b = index / 64;
        if 0 <= b < self.data@.len() && self.data@[b] is Some {
            self.block(b).0@[index % 64]
        } else {
            None
        }
    }

    /// The stored values, by entity slot.
    pub closed spec fn view(&self) -> Map<nat, T> {
        Map::new(|i: nat| self.entry(i as int) is Some, |i: nat| self.entry(i as int)->0)
    }

    /// Every allocated block covers its slots and counts its values, of
    /// which it has at least one.
    pub closed spec fn wf(&self) -> bool {
        forall|b: int| 0 <= b < self.data@.len() && (#[trigger] self.data@[b]) is Some ==> {
            &&& self.block(b).0@.len() == 64
            &&& self.block(b).1 == count_some(self.block(b).0@)
            &&& self.block(b).1 >= 1
        }
    }

    /// Empty storage.
    pub fn new() -> (m: ComponentMem<T>)
        ensures
            m.wf(),
            m@ == Map::<nat, T>::empty(),
    {
        let m = ComponentMem { data: Vec::new() };
        proof {
            assert(m@ =~= Map::<nat, T>::empty());
        }
        m
    }

    /// Stores `val` for slot `index`, which has no value yet.
    pub fn add(&mut self, index: usize, val: T)
        requires
            old(self).wf(),
            !old(self)@.contains_key(index as nat),
        ensures
            final(self).wf(),
            final(self)@ == old(self)@.insert(index as nat, val),
    {
        let idx = index / COMPONENTS_PER_BLOCK;
        let rem = index % COMPONENTS_PER_BLOCK;
        let ghost d0 = self.data@;
        while self.data.len() < idx + 1
            invariant
                idx == index / 64,
                d0.len() <= self.data@.len(),
                self.data@.len() <= idx + 1 || self.data@ == d0,
                forall|b: int| 0 <= b < d0.len() ==> self.data@[b] == d0[b],
                forall|b: int| d0.len() <= b < self.data@.len() ==> self.data@[b] is None,
            decreases idx + 1 - self.data@.len(),
        {
            self.data.push(None);
        }
        let ghost d1 = self.data@;
        assert(forall|i: int| #![auto] 0 <= i ==> self.entry(i) == old(self).entry(i));
        if self.data[idx].is_none() {
            let mut block: Vec<Option<T>> = Vec::new();
            let mut k: usize = 0;
            while k < COMPONENTS_PER_BLOCK
                invariant
                    k <= 64,
                    block@ == Seq::new(k as nat, |i: int| None::<T>),
                decreases 64 - k,
            {
                block.push(None);
                k = k + 1;
                proof {
                    assert(block@ =~= Seq::new(k as nat, |i: int| None::<T>));
                }
            }
            proof {
                lemma_count_some_none::<T>(64);
            }
            self.data.set(idx, Some((block, 0)));
        }
        let ghost d2 = self.data@;
        let mut slot: Option<(Vec<Option<T>>, usize)> = None;
        std::mem::swap(&mut slot, &mut self.data[idx]);
        let (mut block, count) = slot.unwrap();
        proof {
            assert(block@.len() == 64);
            assert(count == count_some(block@));
            assert(block@[rem as int] is None) by {
                assert(index as int / 64 == idx as int);
                assert(index as int % 64 == rem as int);
                assert(!old(self)@.contains_key(index as nat));
            }
            lemma_count_some_update(block@, rem as int, Some(val));
            lemma_count_some_le(block@);
        }
        block.set(rem, Some(val));
        self.data.set(idx, Some((block, count + 1)));
        proof {
            assert forall|i: nat| self@.contains_key(i) == old(self)@.insert(index as nat, val).contains_key(i)
                && (self@.contains_key(i) ==> self@[i] == old(self)@.insert(index as nat, val)[i]) by {
                if i as int / 64 == idx as int {
                    if i as int % 64 != rem as int {
                        assert(i != index);
                    } else {
                        assert(i == index as nat);
                    }
                } else {
                    assert(i != index);
                }
            }
            assert(self@ =~= old(self)@.insert(index as nat, val));
            assert forall|b: int| 0 <= b < self.data@.len() && (#[trigger] self.data@[b]) is Some implies {
                &&& self.block(b).0@.len() == 64
                &&& self.block(b).1 == count_some(self.block(b).0@)
                &&& self.block(b).1 >= 1
            } by {
                if b != idx as int {
                    assert(self.data@[b] == d2[b]);
                    assert(d2[b] == d1[b]);
                    if b < d0.len() {
                        assert(d1[b] == old(self).data@[b]);
                    }
                }
            }
        }
    }

    /// Drops the value stored for slot `index`; a block left empty is freed.
    pub fn remove(&mut self, index: usize)
        requires
            old(self).wf(),
            old(self)@.contains_key(index as nat),
        ensures
            final(self).wf(),
            final(self)@ == old(self)@.remove(index as nat),
    {
        let idx = index / COMPONENTS_PER_BLOCK;
        let rem = index % COMPONENTS_PER_BLOCK;
        proof {
            assert(index as int / 64 == idx as int);
            assert(index as int % 64 == rem as int);
            assert(old(self).entry(index as int) is Some);
        }
        let mut slot: Option<(Vec<Option<T>>, usize)> = None;
        std::mem::swap(&mut slot, &mut self.data[idx]);
        let (mut block, count) = slot.unwrap();
        let ghost b0 = block@;
        proof {
            assert(b0 == old(self).block(idx as int).0@);
            lemma_count_some_update(block@, rem as int, None);
        }
        block.set(rem, None);
        let left = count - 1;
        if left == 0 {
            proof {
                assert forall|k: int| 0 <= k < 64 implies block@[k] is None by {
                    lemma_count_some_zero(block@, k);
                }
            }
            self.data.set(idx, None);
        } else {
            self.data.set(idx, Some((block, left)));
        }
        proof {
            assert forall|i: nat| #[trigger] self@.contains_key(i) == old(self)@.remove(index as nat).contains_key(i)
                && (self@.contains_key(i) ==> self@[i] == old(self)@.remove(index as nat)[i]) by {
                if i as int / 64 == idx as int {
                    if i as int % 64 != rem as int {
                        assert(i != index);
                        assert(block@[i as int % 64] == b0[i as int % 64]);
                        assert(old(self).entry(i as int) == b0[i as int % 64]);
                        if left == 0 {
                            assert(block@[i as int % 64] is None);
                            assert(self.entry(i as int) is None);
                        } else {
                            assert(self.entry(i as int) == block@[i as int % 64]);
                        }
                    } else {
                        assert(i == index as nat);
                    }
                } else {
                    assert(i != index);
                    assert(self.entry(i as int) == old(self).entry(i as int));
                }
            }
            assert(self@ =~= old(self)@.remove(index as nat));
            assert forall|b: int| 0 <= b < self.data@.len() && (#[trigger] self.data@[b]) is Some implies {
                &&& self.block(b).0@.len() == 64
                &&& self.block(b).1 == count_some(self.block(b).0@)
                &&& self.block(b).1 >= 1
            } by {
                if b != idx as int {
                    assert(self.data@[b] == old(self).data@[b]);
                }
            }
        }
    }

    /// The value stored for slot `index`.
    pub fn get(&self, index: usize) -> (r: &T)
        requires
            self.wf(),
            self@.contains_key(index as nat),
        ensures
            *r == self@[index as nat],
    {
        let idx = index / COMPONENTS_PER_BLOCK;
        let rem = index % COMPONENTS_PER_BLOCK;
        proof {
            assert(index as int / 64 == idx as int);
            assert(index as int % 64 == rem as int);
            assert(self.entry(index as int) is Some);
        }
        let block = self.data[idx].as_ref().unwrap();
        block.0[rem].as_ref().unwrap()
    }

    /// The value stored for slot `index`, to be changed in place.
    pub fn get_mut(&mut self, index: usize) -> (r: &mut T)
        requires
            old(self).wf(),
            old(self)@.contains_key(index as nat),
        ensures
            *r == old(self)@[index as nat],
            final(self).wf(),
            final(self)@ == old(self)@.insert(index as nat, *final(r)),
    {
        let idx = index / COMPONENTS_PER_BLOCK;
        let rem = index % COMPONENTS_PER_BLOCK;
        proof {
            assert(index as int / 64 == idx as int);
            assert(index as int % 64 == rem as int);
            assert(old(self).entry(index as int) is Some);
        }
        let block = self.data[idx].as_mut().unwrap();
        let ghost b0 = block.0@;
        let r = block.0[rem].as_mut().unwrap();
        proof {
            lemma_count_some_update(b0, rem as int, Some(*final(r)));
        }
        r
    }
}

proof fn lemma_count_some_le<T>(s: Seq<Option<T>>)
    ensures
        count_some(s) <= s.len(),
    decreases s.len(),
{
    if s.len() > 0 {
        lemma_count_some_le(s.drop_last());
    }
}

} // verus!
