use std::collections::HashMap;
use vstd::prelude::*;
use vstd::set_lib::{lemma_int_range, lemma_len_subset, set_int_range};

verus! {

broadcast use vstd::std_specs::hash::group_hash_axioms;

/// The smallest and one past the largest id that is handed out.
pub open spec fn id_range_ok(id: u32) -> bool {
    1 <= id && id < 0xFFFF_FFFF
}

/// Calls `rand::Rng::gen_range` on `rand::thread_rng()`. Claims that the draw lies in
/// `low..high`, which the crate's documentation promises; which value comes is left unsaid.
#[verifier::external_body]
fn random_in_range(low: u32, high: u32) -> (r: u32)
    requires
        low < high,
    ensures
        low <= r < high,
{
    rand::Rng::gen_range(&mut rand::thread_rng(), low, high)
}

/// Calls `HashMap::get_mut`: the value under `key`, to change in place, when there is one.
/// Claims that the reference starts as the stored value and that whatever it holds at the end
/// is what the map then holds under `key`, the rest of the map unchanged.
#[verifier::external_body]
pub(crate) fn value_mut<'a, K: std::hash::Hash + Eq, V>(map: &'a mut HashMap<K, V>, key: &K) -> (r:
    Option<&'a mut V>)
    ensures
        vstd::std_specs::hash::obeys_key_model::<K>() ==> match r {
            Some(v) => old(map)@.contains_key(*key) && *v == old(map)@[*key] && final(map)@ == old(
                map,
            )@.insert(*key, *final(v)),
            None => !old(map)@.contains_key(*key) && final(map)@ == old(map)@,
        },
{
    map.get_mut(key)
}

/// Tells whether `id` is in `ids`.
pub fn contains_id(ids: &Vec<u32>, id: u32) -> (b: bool)
    ensures
        b == ids@.contains(id),
{
    let mut i: usize = 0;
    while i < ids.len()
        invariant
            i <= ids@.len(),
            forall|k: int| 0 <= k < i ==> ids@[k] != id,
        decreases ids@.len() - i,
    {
        if ids[i] == id {
            assert(ids@[i as int] == id);
            return true;
        }
        i = i + 1;
    }
    false
}

/// The number `k` is among the ids.
pub open spec fn taken(ids: Seq<u32>, k: int) -> bool {
    ids.contains(k as u32)
}

proof fn lemma_taken_prefix_bound(ids: Seq<u32>, c: int)
    requires
        1 <= c <= 0x1_0000_0000,
        forall|k: int| 1 <= k < c ==> #[trigger] taken(ids, k),
    ensures
        c - 1 <= ids.len(),
{
    let s = ids.map_values(|x: u32| x as int);
    let r = set_int_range(1, c);
    lemma_int_range(1, c);
    assert(r.subset_of(s.to_set())) by {
        assert forall|k: int| r.contains(k) implies s.to_set().contains(k) by {
            assert(taken(ids, k));
            let i = choose|i: int| 0 <= i < ids.len() && ids[i] == k as u32;
            assert(s[i] == k);
            assert(s.contains(k));
        }
    }
    s.lemma_cardinality_of_set();
    vstd::seq_lib::seq_to_set_is_finite(s);
    lemma_len_subset(r, s.to_set());
}

/// The least id that `ids` does not hold.
fn least_free_id(ids: &Vec<u32>) -> (id: u32)
    requires
        ids@.len() < 0xFFFF_FFFE,
    ensures
        id_range_ok(id),
        !ids@.contains(id),
{
    let mut c: u32 = 1;
    while contains_id(ids, c)
        invariant
            1 <= c,
            c as int - 1 <= ids@.len(),
            ids@.len() < 0xFFFF_FFFE,
            forall|k: int| 1 <= k < c ==> #[trigger] taken(ids@, k),
        decreases ids@.len() + 1 - c,
    {
        proof {
            lemma_taken_prefix_bound(ids@, c as int + 1);
        }
        c = c + 1;
    }
    c
}

/// A fresh id: drawn at random from `1..0xFFFF_FFFF` again and again while the draw is
/// taken, and after as many draws as there are ids, the least free one. It is added to `ids`.
pub fn fresh_id(ids: &mut Vec<u32>) -> (id: u32)
    requires
        old(ids)@.len() < 0xFFFF_FFFE,
    ensures
        id_range_ok(id),
        !old(ids)@.contains(id),
        final(ids)@ == old(ids)@.push(id),
{
    let mut candidate = random_in_range(1, 0xFFFF_FFFF);
    let mut tries: usize = 0;
    while tries < ids.len() && contains_id(ids, candidate)
        invariant
            id_range_ok(candidate),
        decreases ids@.len() - tries,
    {
        candidate = random_in_range(1, 0xFFFF_FFFF);
        tries = tries + 1;
    }
    if contains_id(ids, candidate) {
        candidate = least_free_id(ids);
    }
    ids.push(candidate);
    candidate
}

/// Takes the first occurrence of `id` out of `ids`, which must hold it.
pub fn delete_id(ids: &mut Vec<u32>, id: u32)
    requires
        old(ids)@.contains(id),
    ensures
        exists|i: int|
            0 <= i < old(ids)@.len() && old(ids)@[i] == id && (forall|k: int|
                0 <= k < i ==> old(ids)@[k] != id) && final(ids)@ == old(ids)@.remove(i),
{
    let mut i: usize = 0;
    while i < ids.len()
        invariant
            i <= ids@.len(),
            ids@ == old(ids)@,
            old(ids)@.contains(id),
            forall|k: int| 0 <= k < i ==> ids@[k] != id,
        decreases ids@.len() - i,
    {
        if ids[i] == id {
            ids.remove(i);
            return;
        }
        i = i + 1;
    }
    proof {
        let j = choose|j: int| 0 <= j < old(ids)@.len() && old(ids)@[j] == id;
        assert(ids@[j] != id);
    }
}

/// The ids of components handed out so far.
pub struct ComponentIds {
    ids: Vec<u32>,
}

impl ComponentIds {
    /// The ids handed out, in order.
    pub closed spec fn spec_ids(&self) -> Seq<u32> {
        self.ids@
    }

    /// No id handed out yet.
    pub fn new() -> (r: Self)
        ensures
            r.spec_ids() == Seq::<u32>::empty(),
    {
        ComponentIds { ids: Vec::new() }
    }
}

/// A fresh component id, recorded among the ids handed out.
pub fn create_component_id(registry: &mut ComponentIds) -> (id: u32)
    requires
        old(registry).spec_ids().len() < 0xFFFF_FFFE,
    ensures
        id_range_ok(id),
        !old(registry).spec_ids().contains(id),
        final(registry).spec_ids() == old(registry).spec_ids().push(id),
{
    fresh_id(&mut registry.ids)
}

/// Forgets a component id, which must have been handed out (its first record goes).
pub fn delete_component_id(registry: &mut ComponentIds, id: u32)
    requires
        old(registry).spec_ids().contains(id),
    ensures
        exists|i: int|
            0 <= i < old(registry).spec_ids().len() && old(registry).spec_ids()[i] == id && (
            forall|k: int| 0 <= k < i ==> old(registry).spec_ids()[k] != id)
                && final(registry).spec_ids() == old(registry).spec_ids().remove(i),
{
    delete_id(&mut registry.ids, id);
}

/// A thing of the scene: an id, a tag, a layer and a name.
#[derive(Debug)]
pub struct GameObject {
    id: u32,
    tag: String,
    layer: String,
    name: String,
}

/// The characters of `Entity`.
pub open spec fn entity_tag() -> Seq<char> {
    seq!['E', 'n', 't', 'i', 't', 'y']
}

/// The characters of `Default`.
pub open spec fn default_layer() -> Seq<char> {
    seq!['D', 'e', 'f', 'a', 'u', 'l', 't']
}

/// The ids of game objects handed out so far.
pub struct GameObjectIds {
    ids: Vec<u32>,
}

impl GameObjectIds {
    /// The ids handed out, in order.
    pub closed spec fn spec_ids(&self) -> Seq<u32> {
        self.ids@
    }

    /// No id handed out yet.
    pub fn new() -> (r: Self)
        ensures
            r.spec_ids() == Seq::<u32>::empty(),
    {
        GameObjectIds { ids: Vec::new() }
    }

    /// The ids handed out, in order.
    pub fn ids(&self) -> (r: &Vec<u32>)
        ensures
            r@ == self.spec_ids(),
    {
        &self.ids
    }
}

impl GameObject {
    /// The id.
    pub closed spec fn spec_id(&self) -> u32 {
        self.id
    }

    /// The tag.
    pub closed spec fn spec_tag(&self) -> Seq<char> {
        self.tag@
    }

    /// The layer.
    pub closed spec fn spec_layer(&self) -> Seq<char> {
        self.layer@
    }

    /// The name.
    pub closed spec fn spec_name(&self) -> Seq<char> {
        self.name@
    }

    /// A game object with the given id, tagged `Entity`, on the layer `Default`, unnamed.
    pub fn new(id: u32) -> (g: Self)
        ensures
            g.spec_id() == id,
            g.spec_tag() == entity_tag(),
            g.spec_layer() == default_layer(),
            g.spec_name() == Seq::<char>::empty(),
    {
        proof {
            reveal_strlit("Default");
            reveal_strlit("Entity");
        }
        GameObject {
            id,
            layer: "Default".to_owned(),
            tag: "Entity".to_owned(),
            name: String::new(),
        }
    }

    /// A game object with a fresh id, which is recorded among the ids handed out.
    pub fn create_game_object(ids: &mut GameObjectIds) -> (g: Self)
        requires
            old(ids).spec_ids().len() < 0xFFFF_FFFE,
        ensures
            id_range_ok(g.spec_id()),
            !old(ids).spec_ids().contains(g.spec_id()),
            final(ids).spec_ids() == old(ids).spec_ids().push(g.spec_id()),
            g.spec_tag() == entity_tag(),
            g.spec_layer() == default_layer(),
            g.spec_name() == Seq::<char>::empty(),
    {
        let id = fresh_id(&mut ids.ids);
        GameObject::new(id)
    }

    /// A game object with the given id, which is recorded among the ids handed out.
    pub fn create_game_object_with_id(id: u32, ids: &mut GameObjectIds) -> (g: Self)
        ensures
            g.spec_id() == id,
            final(ids).spec_ids() == old(ids).spec_ids().push(id),
            g.spec_tag() == entity_tag(),
            g.spec_layer() == default_layer(),
            g.spec_name() == Seq::<char>::empty(),
    {
        ids.ids.push(id);
        GameObject::new(id)
    }

    /// The id.
    pub fn get_id(&self) -> (id: u32)
        ensures
            id == self.spec_id(),
    {
        self.id
    }

    /// A copy of the game object.
    pub fn duplicate(&self) -> (g: Self)
        ensures
            g.spec_id() == self.spec_id(),
            g.spec_tag() == self.spec_tag(),
            g.spec_layer() == self.spec_layer(),
            g.spec_name() == self.spec_name(),
    {
        GameObject {
            id: self.id,
            tag: self.tag.clone(),
            layer: self.layer.clone(),
            name: self.name.clone(),
        }
    }
}

/// The components of a thing of the scene, at most one of each component type; a type is
/// known by a number that the caller gives it.
#[derive(Debug)]
pub struct Entity<C> {
    components: HashMap<u64, C>,
}

impl<C> Entity<C> {
    /// The components by type.
    pub closed spec fn spec_components(&self) -> Map<u64, C> {
        self.components@
    }

    /// An entity without components.
    pub fn new() -> (e: Self)
        ensures
            e.spec_components() == Map::<u64, C>::empty(),
    {
        Entity { components: HashMap::new() }
    }

    /// Sets the component of type `kind`, in the place of any earlier one of that type.
    pub fn add_component(&mut self, kind: u64, component: C)
        ensures
            final(self).spec_components() == old(self).spec_components().insert(kind, component),
    {
        self.components.insert(kind, component);
    }

    /// Tells whether there is a component of type `kind`.
    pub fn has_component(&self, kind: u64) -> (b: bool)
        ensures
            b == self.spec_components().contains_key(kind),
    {
        self.components.contains_key(&kind)
    }

    /// The component of type `kind`, if any.
    pub fn get_component(&self, kind: u64) -> (r: Option<&C>)
        ensures
            match r {
                Some(c) => self.spec_components().contains_key(kind) && *c
                    == self.spec_components()[kind],
                None => !self.spec_components().contains_key(kind),
            },
    {
        self.components.get(&kind)
    }

    /// The component of type `kind`, to change in place, if any; what it holds at the end is
    /// then the entity's component of that type.
    pub fn get_mut_component(&mut self, kind: u64) -> (r: Option<&mut C>)
        ensures
            match r {
                Some(c) => old(self).spec_components().contains_key(kind) && *c == old(
                    self,
                ).spec_components()[kind] && final(self).spec_components() == old(
                    self,
                ).spec_components().insert(kind, *final(c)),
                None => !old(self).spec_components().contains_key(kind)
                    && final(self).spec_components() == old(self).spec_components(),
            },
    {
        value_mut(&mut self.components, &kind)
    }

    /// The components of type `kind`: the one held, if any.
    pub fn get_components(&self, kind: u64) -> (r: Vec<&C>)
        ensures
            self.spec_components().contains_key(kind) ==> r@.len() == 1 && *r@[0]
                == self.spec_components()[kind],
            !self.spec_components().contains_key(kind) ==> r@.len() == 0,
    {
        let mut r: Vec<&C> = Vec::new();
        match self.components.get(&kind) {
            Some(c) => {
                r.push(c);
            },
            None => {},
        }
        r
    }

    /// Takes the component of type `kind` out, if any.
    pub fn remove_component(&mut self, kind: u64) -> (r: Option<C>)
        ensures
            final(self).spec_components() == old(self).spec_components().remove(kind),
            match r {
                Some(c) => old(self).spec_components().contains_key(kind) && c == old(
                    self,
                ).spec_components()[kind],
                None => !old(self).spec_components().contains_key(kind),
            },
    {
        self.components.remove(&kind)
    }
}

/// Things of the scene that a system works on, by id.
pub struct SystemGroup<C> {
    members: HashMap<u32, Entity<C>>,
}

impl<C> SystemGroup<C> {
    /// The members by id.
    pub closed spec fn spec_members(&self) -> Map<u32, Entity<C>> {
        self.members@
    }

    /// A group without members.
    pub fn new() -> (g: Self)
        ensures
            g.spec_members() == Map::<u32, Entity<C>>::empty(),
    {
        SystemGroup { members: HashMap::new() }
    }

    /// Sets the member `id`, in the place of any earlier one.
    pub fn add_member(&mut self, id: u32, entity: Entity<C>)
        ensures
            final(self).spec_members() == old(self).spec_members().insert(id, entity),
    {
        self.members.insert(id, entity);
    }

    /// Takes the member `id` out, if there is one.
    pub fn remove_member(&mut self, id: u32)
        ensures
            final(self).spec_members() == old(self).spec_members().remove(id),
    {
        self.members.remove(&id);
    }
}

} // verus!
