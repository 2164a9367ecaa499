use std::collections::HashMap;
use vstd::prelude::*;

use crate::object::{
    contains_id, delete_component_id, id_range_ok, value_mut, ComponentIds, Entity, GameObject,
    GameObjectIds,
};

verus! {

broadcast use vstd::std_specs::hash::group_hash_axioms;

/// The table after the entity `id` gained the component `component` of type `kind`, when
/// there is such an entity; the table unchanged otherwise.
pub open spec fn pushed<C>(
    before: Map<u32, Entity<C>>,
    after: Map<u32, Entity<C>>,
    id: u32,
    kind: u64,
    component: C,
) -> bool {
    if before.contains_key(id) {
        &&& after.dom() == before.dom()
        &&& forall|k: u32| k != id && before.contains_key(k) ==> after[k] == before[k]
        &&& after[id].spec_components() == before[id].spec_components().insert(kind, component)
    } else {
        after == before
    }
}

/// The table after the entity `id` was set to one whose components are `components`.
pub open spec fn placed<C>(
    before: Map<u32, Entity<C>>,
    after: Map<u32, Entity<C>>,
    id: u32,
    components: Map<u64, C>,
) -> bool {
    &&& after.dom() == before.dom().insert(id)
    &&& forall|k: u32| k != id && before.contains_key(k) ==> after[k] == before[k]
    &&& after[id].spec_components() == components
}

/// A component given to a thing with an entity is what the thing then holds of that type;
/// its other components and the other things stay as they were.
pub proof fn lemma_push_then_query<C>(
    before: Map<u32, Entity<C>>,
    after: Map<u32, Entity<C>>,
    id: u32,
    kind: u64,
    component: C,
)
    requires
        pushed(before, after, id, kind, component),
        before.contains_key(id),
    ensures
        after.contains_key(id),
        after[id].spec_components().contains_key(kind),
        after[id].spec_components()[kind] == component,
        forall|k: u64|
            k != kind && before[id].spec_components().contains_key(k) ==> after[id].spec_components().contains_key(k)
                && after[id].spec_components()[k] == before[id].spec_components()[k],
        forall|j: u32| j != id && before.contains_key(j) ==> after.contains_key(j) && after[j] == before[j],
{
}

/// The table after the component of type `kind` of the entity `id` was changed in place to
/// `component`: that entity holds it, every other entity and component is as it was.
pub open spec fn changed_in_place<C>(
    before: Map<u32, Entity<C>>,
    after: Map<u32, Entity<C>>,
    id: u32,
    kind: u64,
    component: C,
) -> bool {
    &&& after.dom() =~= before.dom()
    &&& forall|k: u32| k != id && before.contains_key(k) ==> after[k] == before[k]
    &&& after[id].spec_components() == before[id].spec_components().insert(kind, component)
}

/// The same entities, holding the same components.
pub open spec fn same_components<C>(before: Map<u32, Entity<C>>, after: Map<u32, Entity<C>>) -> bool {
    &&& after.dom() =~= before.dom()
    &&& forall|k: u32| #[trigger] before.contains_key(k) ==> after[k].spec_components() == before[k].spec_components()
}

/// The thing's component of type `kind`, to change in place, when it has an entity with one.
fn component_mut<C>(entities: &mut HashMap<u32, Entity<C>>, id: u32, kind: u64) -> (r: Option<&mut C>)
    ensures
        match r {
            Some(c) => old(entities)@.contains_key(id) && old(entities)@[id].spec_components().contains_key(kind)
                && *c == old(entities)@[id].spec_components()[kind] && changed_in_place(
                old(entities)@,
                final(entities)@,
                id,
                kind,
                *final(c),
            ),
            None => !(old(entities)@.contains_key(id) && old(entities)@[id].spec_components().contains_key(kind))
                && same_components(old(entities)@, final(entities)@),
        },
{
    match value_mut(entities, &id) {
        Some(e) => e.get_mut_component(kind),
        None => None,
    }
}

/// Gives the entity `id` the component, when there is such an entity.
fn push_into<C>(entities: &mut HashMap<u32, Entity<C>>, id: u32, kind: u64, component: C)
    ensures
        pushed(old(entities)@, final(entities)@, id, kind, component),
{
    match entities.remove(&id) {
        Some(mut e) => {
            e.add_component(kind, component);
            entities.insert(id, e);
            assert(entities@.dom() =~= old(entities)@.dom());
        },
        None => {
            assert(entities@ =~= old(entities)@);
        },
    }
}

/// The ids of `ids` that are in `dom`, each once, in the order in which they first came.
pub open spec fn live_ids_of(ids: Seq<u32>, dom: Set<u32>) -> Seq<u32>
    decreases ids.len(),
{
    if ids.len() == 0 {
        Seq::empty()
    } else {
        let prev = live_ids_of(ids.drop_last(), dom);
        let x = ids.last();
        if dom.contains(x) && !ids.drop_last().contains(x) {
            prev.push(x)
        } else {
            prev
        }
    }
}

/// What a sequence with one more element contains.
proof fn lemma_push_contains(s: Seq<u32>, x: u32)
    ensures
        forall|y: u32| s.push(x).contains(y) <==> (s.contains(y) || y == x),
{
    assert forall|y: u32| s.push(x).contains(y) <==> (s.contains(y) || y == x) by {
        if s.contains(y) {
            let k = choose|k: int| 0 <= k < s.len() && s[k] == y;
            assert(s.push(x)[k] == y);
        }
        if y == x {
            assert(s.push(x)[s.len() as int] == y);
        }
        if s.push(x).contains(y) && y != x {
            let k = choose|k: int| 0 <= k < s.push(x).len() && s.push(x)[k] == y;
            assert(s[k] == y);
        }
    }
}

/// The ids of `ids` that are keys of `entities`, as `live_ids_of` gives them.
fn live_ids_in<C>(ids: &Vec<u32>, entities: &HashMap<u32, Entity<C>>) -> (r: Vec<u32>)
    ensures
        r@ == live_ids_of(ids@, entities@.dom()),
{
    let ghost dom = entities@.dom();
    let mut r: Vec<u32> = Vec::new();
    let mut i: usize = 0;
    while i < ids.len()
        invariant
            i <= ids@.len(),
            dom == entities@.dom(),
            r@ == live_ids_of(ids@.take(i as int), dom),
            forall|y: u32| r@.contains(y) <==> (dom.contains(y) && ids@.take(i as int).contains(y)),
        decreases ids@.len() - i,
    {
        let x = ids[i];
        let ghost pre = ids@.take(i as int);
        let ghost next = ids@.take(i + 1);
        assert(next.drop_last() =~= pre);
        assert(next.last() == x);
        let fresh = entities.contains_key(&x) && !contains_id(&r, x);
        assert(fresh == (dom.contains(x) && !pre.contains(x)));
        let ghost r0 = r@;
        assert(forall|y: u32| r0.contains(y) <==> (dom.contains(y) && pre.contains(y)));
        if fresh {
            r.push(x);
        }
        proof {
            lemma_push_contains(pre, x);
            lemma_push_contains(r0, x);
            assert(next =~= pre.push(x));
            assert forall|y: u32| r@.contains(y) <==> (dom.contains(y) && next.contains(y)) by {
                assert(r0.contains(y) <==> (dom.contains(y) && pre.contains(y)));
                assert(next.contains(y) <==> (pre.contains(y) || y == x));
                assert(r0.push(x).contains(y) <==> (r0.contains(y) || y == x));
                if fresh {
                    assert(r@ == r0.push(x));
                } else {
                    assert(r@ == r0);
                    if y == x && dom.contains(x) {
                        assert(pre.contains(x));
                    }
                }
            }
        }
        i = i + 1;
    }
    assert(ids@.take(ids@.len() as int) =~= ids@);
    r
}

/// The things of a stage by id, with the ids of the things spawned on it, in order. Ids are
/// handed out by the program's one registry of game object ids, which `spawn` is given.
pub struct Query<C> {
    entities: HashMap<u32, Entity<C>>,
    spawned: Vec<u32>,
}

impl<C> Query<C> {
    /// The entities by id.
    pub closed spec fn spec_entities(&self) -> Map<u32, Entity<C>> {
        self.entities@
    }

    /// The ids of the things spawned on this stage, in order.
    pub closed spec fn spec_spawned(&self) -> Seq<u32> {
        self.spawned@
    }

    /// No entities, nothing spawned.
    pub fn new() -> (q: Self)
        ensures
            q.spec_entities() == Map::<u32, Entity<C>>::empty(),
            q.spec_spawned() == Seq::<u32>::empty(),
    {
        Query { entities: HashMap::new(), spawned: Vec::new() }
    }

    /// A new thing whose entity holds the transform `transform` (of the component type
    /// `transform_kind`), with an id that the registry `ids` did not hold; the registry then
    /// holds it.
    pub fn spawn(&mut self, ids: &mut GameObjectIds, transform_kind: u64, transform: C) -> (g:
        GameObject)
        requires
            old(ids).spec_ids().len() < 0xFFFF_FFFE,
        ensures
            id_range_ok(g.spec_id()),
            !old(ids).spec_ids().contains(g.spec_id()),
            final(ids).spec_ids() == old(ids).spec_ids().push(g.spec_id()),
            final(self).spec_spawned() == old(self).spec_spawned().push(g.spec_id()),
            placed(
                old(self).spec_entities(),
                final(self).spec_entities(),
                g.spec_id(),
                Map::empty().insert(transform_kind, transform),
            ),
    {
        let game_object = GameObject::create_game_object(ids);
        let mut entity = Entity::new();
        entity.add_component(transform_kind, transform);
        self.entities.insert(game_object.get_id(), entity);
        self.spawned.push(game_object.get_id());
        game_object
    }

    /// A new thing with the given id, recorded in the registry `ids`, and an entity without
    /// components, in the place of any entity of that id.
    pub fn spawn_with_id(&mut self, id: u32, ids: &mut GameObjectIds) -> (g: GameObject)
        ensures
            g.spec_id() == id,
            final(ids).spec_ids() == old(ids).spec_ids().push(id),
            final(self).spec_spawned() == old(self).spec_spawned().push(id),
            placed(old(self).spec_entities(), final(self).spec_entities(), id, Map::empty()),
    {
        let game_object = GameObject::create_game_object_with_id(id, ids);
        self.entities.insert(game_object.get_id(), Entity::new());
        self.spawned.push(id);
        game_object
    }

    /// Gives the thing's entity the component, when the thing has an entity.
    pub fn push(&mut self, game_object: &GameObject, kind: u64, component: C)
        ensures
            pushed(
                old(self).spec_entities(),
                final(self).spec_entities(),
                game_object.spec_id(),
                kind,
                component,
            ),
            final(self).spec_spawned() == old(self).spec_spawned(),
    {
        push_into(&mut self.entities, game_object.get_id(), kind, component);
    }

    /// Takes the thing's entity out.
    pub fn kill(&mut self, game_object: &GameObject)
        ensures
            final(self).spec_entities() == old(self).spec_entities().remove(game_object.spec_id()),
            final(self).spec_spawned() == old(self).spec_spawned(),
    {
        self.entities.remove(&game_object.get_id());
    }

    /// The ids of the things that have an entity, each once, in the order in which they were
    /// spawned.
    pub fn live_ids(&self) -> (r: Vec<u32>)
        ensures
            r@ == live_ids_of(self.spec_spawned(), self.spec_entities().dom()),
    {
        live_ids_in(&self.spawned, &self.entities)
    }

    /// The thing's entity, if it has one.
    pub fn query_entity(&self, game_object: &GameObject) -> (r: Option<&Entity<C>>)
        ensures
            match r {
                Some(e) => self.spec_entities().contains_key(game_object.spec_id()) && *e
                    == self.spec_entities()[game_object.spec_id()],
                None => !self.spec_entities().contains_key(game_object.spec_id()),
            },
    {
        self.entities.get(&game_object.get_id())
    }
}

/// The things of a scene by id. Ids come from the program's registries of game object and
/// component ids, which `spawn` and `kill` are given.
pub struct ComponentManager<C> {
    entities: HashMap<u32, Entity<C>>,
}

impl<C> ComponentManager<C> {
    /// The entities by id.
    pub closed spec fn spec_entities(&self) -> Map<u32, Entity<C>> {
        self.entities@
    }

    /// No entities.
    pub fn new() -> (m: Self)
        ensures
            m.spec_entities() == Map::<u32, Entity<C>>::empty(),
    {
        ComponentManager { entities: HashMap::new() }
    }

    /// A new thing whose entity holds the transform, with an id that the registry `ids` did
    /// not hold; the registry then holds it.
    pub fn spawn(&mut self, ids: &mut GameObjectIds, transform_kind: u64, transform: C) -> (g:
        GameObject)
        requires
            old(ids).spec_ids().len() < 0xFFFF_FFFE,
        ensures
            id_range_ok(g.spec_id()),
            !old(ids).spec_ids().contains(g.spec_id()),
            final(ids).spec_ids() == old(ids).spec_ids().push(g.spec_id()),
            placed(
                old(self).spec_entities(),
                final(self).spec_entities(),
                g.spec_id(),
                Map::empty().insert(transform_kind, transform),
            ),
    {
        let game_object = GameObject::create_game_object(ids);
        let mut entity = Entity::new();
        entity.add_component(transform_kind, transform);
        self.entities.insert(game_object.get_id(), entity);
        game_object
    }

    /// Gives the thing's entity the component, when the thing has an entity.
    pub fn push(&mut self, game_object: &GameObject, kind: u64, component: C)
        ensures
            pushed(
                old(self).spec_entities(),
                final(self).spec_entities(),
                game_object.spec_id(),
                kind,
                component,
            ),
    {
        push_into(&mut self.entities, game_object.get_id(), kind, component);
    }

    /// Forgets the thing's id in the registry of component ids (where it must be) and takes
    /// its entity out.
    pub fn kill(&mut self, game_object: &GameObject, component_ids: &mut ComponentIds)
        requires
            old(component_ids).spec_ids().contains(game_object.spec_id()),
        ensures
            final(self).spec_entities() == old(self).spec_entities().remove(game_object.spec_id()),
            exists|i: int|
                0 <= i < old(component_ids).spec_ids().len() && old(component_ids).spec_ids()[i]
                    == game_object.spec_id() && (forall|k: int|
                    0 <= k < i ==> old(component_ids).spec_ids()[k] != game_object.spec_id())
                    && final(component_ids).spec_ids() == old(component_ids).spec_ids().remove(i),
    {
        delete_component_id(component_ids, game_object.get_id());
        self.entities.remove(&game_object.get_id());
    }

    /// The thing's entity, if it has one.
    pub fn query_entity(&self, game_object: &GameObject) -> (r: Option<&Entity<C>>)
        ensures
            match r {
                Some(e) => self.spec_entities().contains_key(game_object.spec_id()) && *e
                    == self.spec_entities()[game_object.spec_id()],
                None => !self.spec_entities().contains_key(game_object.spec_id()),
            },
    {
        self.entities.get(&game_object.get_id())
    }

    /// The thing's component of type `kind`, if it has one.
    pub fn query(&self, game_object: &GameObject, kind: u64) -> (r: Option<&C>)
        ensures
            match r {
                Some(c) => self.spec_entities().contains_key(game_object.spec_id())
                    && self.spec_entities()[game_object.spec_id()].spec_components().contains_key(
                    kind,
                ) && *c == self.spec_entities()[game_object.spec_id()].spec_components()[kind],
                None => !(self.spec_entities().contains_key(game_object.spec_id())
                    && self.spec_entities()[game_object.spec_id()].spec_components().contains_key(
                    kind,
                )),
            },
    {
        match self.entities.get(&game_object.get_id()) {
            Some(e) => e.get_component(kind),
            None => None,
        }
    }

    /// The thing's component of type `kind`, to change in place, when it has an entity with
    /// one; what it holds at the end is then that component, and nothing else changes.
    pub fn query_mut(&mut self, game_object: &GameObject, kind: u64) -> (r: Option<&mut C>)
        ensures
            match r {
                Some(c) => old(self).spec_entities().contains_key(game_object.spec_id()) && old(
                    self,
                ).spec_entities()[game_object.spec_id()].spec_components().contains_key(kind) && *c
                    == old(self).spec_entities()[game_object.spec_id()].spec_components()[kind]
                    && changed_in_place(
                    old(self).spec_entities(),
                    final(self).spec_entities(),
                    game_object.spec_id(),
                    kind,
                    *final(c),
                ),
                None => !(old(self).spec_entities().contains_key(game_object.spec_id()) && old(
                    self,
                ).spec_entities()[game_object.spec_id()].spec_components().contains_key(kind))
                    && same_components(old(self).spec_entities(), final(self).spec_entities()),
            },
    {
        component_mut(&mut self.entities, game_object.get_id(), kind)
    }

    /// The thing's components of type `kind`: the one it holds, if it has an entity with one.
    pub fn query_all(&self, game_object: &GameObject, kind: u64) -> (r: Vec<&C>)
        ensures
            (self.spec_entities().contains_key(game_object.spec_id())
                && self.spec_entities()[game_object.spec_id()].spec_components().contains_key(kind))
                ==> r@.len() == 1 && *r@[0]
                == self.spec_entities()[game_object.spec_id()].spec_components()[kind],
            !(self.spec_entities().contains_key(game_object.spec_id())
                && self.spec_entities()[game_object.spec_id()].spec_components().contains_key(kind))
                ==> r@.len() == 0,
    {
        match self.entities.get(&game_object.get_id()) {
            Some(e) => e.get_components(kind),
            None => Vec::new(),
        }
    }
}

/// A named stage and the things on it.
pub struct Stage<C> {
    pub name: String,
    pub manager: Query<C>,
}

impl<C> Stage<C> {
    /// A stage with the given name and no things.
    pub fn new(name: &str) -> (s: Self)
        ensures
            s.name@ == name@,
            s.manager.spec_entities() == Map::<u32, Entity<C>>::empty(),
            s.manager.spec_spawned() == Seq::<u32>::empty(),
    {
        Stage { name: name.to_owned(), manager: Query::new() }
    }
}

/// The things of a scene by id. Ids come from the program's registry of game object ids,
/// which `spawn` is given.
pub struct Scene<C> {
    entities: HashMap<u32, Entity<C>>,
}

impl<C> Scene<C> {
    /// The entities by id.
    pub closed spec fn spec_entities(&self) -> Map<u32, Entity<C>> {
        self.entities@
    }

    /// No entities.
    pub fn new() -> (s: Self)
        ensures
            s.spec_entities() == Map::<u32, Entity<C>>::empty(),
    {
        Scene { entities: HashMap::new() }
    }

    /// A new thing whose entity holds the transform, with an id that the registry `ids` did
    /// not hold; the registry then holds it.
    pub fn spawn(&mut self, ids: &mut GameObjectIds, transform_kind: u64, transform: C) -> (g:
        GameObject)
        requires
            old(ids).spec_ids().len() < 0xFFFF_FFFE,
        ensures
            id_range_ok(g.spec_id()),
            !old(ids).spec_ids().contains(g.spec_id()),
            final(ids).spec_ids() == old(ids).spec_ids().push(g.spec_id()),
            placed(
                old(self).spec_entities(),
                final(self).spec_entities(),
                g.spec_id(),
                Map::empty().insert(transform_kind, transform),
            ),
    {
        let game_object = GameObject::create_game_object(ids);
        let mut entity = Entity::new();
        entity.add_component(transform_kind, transform);
        self.entities.insert(game_object.get_id(), entity);
        game_object
    }

    /// Gives the thing's entity the component; the thing must have an entity.
    pub fn push(&mut self, game_object: &GameObject, kind: u64, component: C)
        requires
            old(self).spec_entities().contains_key(game_object.spec_id()),
        ensures
            pushed(
                old(self).spec_entities(),
                final(self).spec_entities(),
                game_object.spec_id(),
                kind,
                component,
            ),
    {
        push_into(&mut self.entities, game_object.get_id(), kind, component);
    }

    /// Takes the thing's entity out.
    pub fn kill(&mut self, game_object: &GameObject)
        ensures
            final(self).spec_entities() == old(self).spec_entities().remove(game_object.spec_id()),
    {
        self.entities.remove(&game_object.get_id());
    }

    /// The thing's component of type `kind`, if it has an entity with one.
    pub fn query(&self, game_object: &GameObject, kind: u64) -> (r: Option<&C>)
        ensures
            match r {
                Some(c) => self.spec_entities().contains_key(game_object.spec_id())
                    && self.spec_entities()[game_object.spec_id()].spec_components().contains_key(kind)
                    && *c == self.spec_entities()[game_object.spec_id()].spec_components()[kind],
                None => !(self.spec_entities().contains_key(game_object.spec_id())
                    && self.spec_entities()[game_object.spec_id()].spec_components().contains_key(
                    kind,
                )),
            },
    {
        match self.entities.get(&game_object.get_id()) {
            Some(e) => e.get_component(kind),
            None => None,
        }
    }

    /// The thing's component of type `kind`, to change in place, when it has an entity with
    /// one; what it holds at the end is then that component, and nothing else changes.
    pub fn query_mut(&mut self, game_object: &GameObject, kind: u64) -> (r: Option<&mut C>)
        ensures
            match r {
                Some(c) => old(self).spec_entities().contains_key(game_object.spec_id()) && old(
                    self,
                ).spec_entities()[game_object.spec_id()].spec_components().contains_key(kind) && *c
                    == old(self).spec_entities()[game_object.spec_id()].spec_components()[kind]
                    && changed_in_place(
                    old(self).spec_entities(),
                    final(self).spec_entities(),
                    game_object.spec_id(),
                    kind,
                    *final(c),
                ),
                None => !(old(self).spec_entities().contains_key(game_object.spec_id()) && old(
                    self,
                ).spec_entities()[game_object.spec_id()].spec_components().contains_key(kind))
                    && same_components(old(self).spec_entities(), final(self).spec_entities()),
            },
    {
        component_mut(&mut self.entities, game_object.get_id(), kind)
    }

    /// The thing's components of type `kind`: the one its entity holds, if any; the thing
    /// must have an entity.
    pub fn query_all(&self, game_object: &GameObject, kind: u64) -> (r: Vec<&C>)
        requires
            self.spec_entities().contains_key(game_object.spec_id()),
        ensures
            self.spec_entities()[game_object.spec_id()].spec_components().contains_key(kind)
                ==> r@.len() == 1 && *r@[0]
                == self.spec_entities()[game_object.spec_id()].spec_components()[kind],
            !self.spec_entities()[game_object.spec_id()].spec_components().contains_key(kind)
                ==> r@.len() == 0,
    {
        match self.entities.get(&game_object.get_id()) {
            Some(e) => e.get_components(kind),
            None => {
                proof {
                    assert(false);
                }
                Vec::new()
            },
        }
    }
}

/// The first item of worker `i`'s share when `workers` workers split `size` items.
pub open spec fn chunk_start(i: int, size: int, workers: int) -> int {
    i * size / workers
}

/// The end of worker `i`'s share: the last worker takes everything that is left.
pub open spec fn chunk_end(i: int, size: int, workers: int) -> int {
    if i == workers - 1 {
        size
    } else {
        (i + 1) * size / workers
    }
}

/// The share of worker `i` among `workers` workers over `size` items, as a range.
pub fn chunk_range(i: usize, size: usize, workers: usize) -> (r: (usize, usize))
    requires
        0 < workers,
        i < workers,
        workers * size <= usize::MAX,
    ensures
        r.0 == chunk_start(i as int, size as int, workers as int),
        r.1 == chunk_end(i as int, size as int, workers as int),
{
    assert(i * size <= workers * size && (i + 1) * size <= workers * size) by (nonlinear_arith)
        requires
            i < workers,
    ;
    let start = i * size / workers;
    let end = if i == workers - 1 {
        size
    } else {
        (i + 1) * size / workers
    };
    (start, end)
}

/// The shares of the workers split the items: the first starts at 0, each ends where the
/// next starts, none ends before it starts, and the last ends at `size`.
pub proof fn lemma_chunks_partition(size: int, workers: int)
    requires
        0 < workers,
        0 <= size,
    ensures
        chunk_start(0, size, workers) == 0,
        chunk_end(workers - 1, size, workers) == size,
        forall|i: int| 0 <= i < workers - 1 ==> #[trigger] chunk_end(i, size, workers) == chunk_start(i + 1, size, workers),
        forall|i: int|
            0 <= i < workers ==> 0 <= #[trigger] chunk_start(i, size, workers) <= chunk_end(i, size, workers) <= size,
{
    assert(0 * size / workers == 0) by (nonlinear_arith)
        requires
            0 < workers,
    ;
    assert forall|i: int|
        0 <= i < workers implies 0 <= #[trigger] chunk_start(i, size, workers) <= chunk_end(i, size, workers) <= size by {
        assert(0 <= i * size <= (i + 1) * size <= workers * size) by (nonlinear_arith)
            requires
                0 <= i < workers,
                0 <= size,
        ;
        vstd::arithmetic::div_mod::lemma_div_is_ordered(0, i * size, workers);
        vstd::arithmetic::div_mod::lemma_div_is_ordered(i * size, (i + 1) * size, workers);
        vstd::arithmetic::div_mod::lemma_div_is_ordered((i + 1) * size, workers * size, workers);
        vstd::arithmetic::div_mod::lemma_div_multiples_vanish(size, workers);
        assert(workers * size == size * workers) by (nonlinear_arith);
        vstd::arithmetic::div_mod::lemma_div_is_ordered(i * size, workers * size, workers);
    }
}

} // verus!
