use vstd::prelude::*;

verus! {

/// The map that a list of named entries stands for: a later entry of a name wins.
pub open spec fn map_of<V>(es: Seq<(String, V)>) -> Map<Seq<char>, V>
    decreases es.len(),
{
    if es.len() == 0 {
        Map::empty()
    } else {
        map_of(es.drop_last()).insert(es.last().0@, es.last().1)
    }
}

/// No name stands twice in the list.
pub open spec fn unique_names<V>(es: Seq<(String, V)>) -> bool {
    forall|i: int, j: int|
        0 <= i < es.len() && 0 <= j < es.len() && i != j ==> (#[trigger] es[i]).0@ != (
        #[trigger] es[j]).0@
}

/// A name is in the map exactly when some entry carries it.
pub proof fn lemma_map_of_domain<V>(es: Seq<(String, V)>, k: Seq<char>)
    ensures
        map_of(es).contains_key(k) <==> exists|i: int| 0 <= i < es.len() && (#[trigger] es[i]).0@
            == k,
    decreases es.len(),
{
    if es.len() > 0 {
        lemma_map_of_domain(es.drop_last(), k);
        if map_of(es).contains_key(k) {
            if es.last().0@ != k {
                let i = choose|i: int|
                    0 <= i < es.drop_last().len() && (#[trigger] es.drop_last()[i]).0@ == k;
                assert(es[i] == es.drop_last()[i]);
            } else {
                assert(es[es.len() - 1] == es.last());
            }
        }
        if exists|i: int| 0 <= i < es.len() && (#[trigger] es[i]).0@ == k {
            let i = choose|i: int| 0 <= i < es.len() && (#[trigger] es[i]).0@ == k;
            if i < es.len() - 1 {
                assert(es.drop_last()[i] == es[i]);
            }
        }
    }
}

/// With unique names, the entry that carries a name gives its value.
pub proof fn lemma_map_of_value<V>(es: Seq<(String, V)>, i: int)
    requires
        unique_names(es),
        0 <= i < es.len(),
    ensures
        map_of(es).contains_key(es[i].0@),
        map_of(es)[es[i].0@] == es[i].1,
    decreases es.len(),
{
    if i < es.len() - 1 {
        assert(es.drop_last()[i] == es[i]);
        assert(unique_names(es.drop_last())) by {
            assert forall|a: int, b: int|
                0 <= a < es.drop_last().len() && 0 <= b < es.drop_last().len() && a != b
                    implies (#[trigger] es.drop_last()[a]).0@ != (
                #[trigger] es.drop_last()[b]).0@ by {
                assert(es.drop_last()[a] == es[a]);
                assert(es.drop_last()[b] == es[b]);
            }
        }
        lemma_map_of_value(es.drop_last(), i);
        assert(es[es.len() - 1] == es.last());
    }
}

proof fn lemma_unique_drop_last<V>(es: Seq<(String, V)>)
    requires
        unique_names(es),
        es.len() > 0,
    ensures
        unique_names(es.drop_last()),
{
    assert forall|a: int, b: int|
        0 <= a < es.drop_last().len() && 0 <= b < es.drop_last().len() && a != b implies (
        #[trigger] es.drop_last()[a]).0@ != (#[trigger] es.drop_last()[b]).0@ by {
        assert(es.drop_last()[a] == es[a]);
        assert(es.drop_last()[b] == es[b]);
    }
}

/// Replacing the value of an entry in a list with unique names updates the map at that name.
pub proof fn lemma_map_of_update<V>(es: Seq<(String, V)>, j: int, v: V)
    requires
        unique_names(es),
        0 <= j < es.len(),
    ensures
        map_of(es.update(j, (es[j].0, v))) == map_of(es).insert(es[j].0@, v),
    decreases es.len(),
{
    let es2 = es.update(j, (es[j].0, v));
    if j == es.len() - 1 {
        assert(es2.drop_last() =~= es.drop_last());
        lemma_map_of_domain(es.drop_last(), es[j].0@);
        assert(map_of(es2) =~= map_of(es).insert(es[j].0@, v));
    } else {
        lemma_unique_drop_last(es);
        assert(es2.drop_last() =~= es.drop_last().update(j, (es[j].0, v)));
        assert(es.drop_last()[j] == es[j]);
        lemma_map_of_update(es.drop_last(), j, v);
        assert(es2.last() == es.last());
        assert(es.last() == es[es.len() - 1]);
        assert(es.last().0@ != es[j].0@);
        assert(map_of(es2) =~= map_of(es).insert(es[j].0@, v));
    }
}

/// With unique names, the map has one name for each entry.
pub proof fn lemma_map_of_len<V>(es: Seq<(String, V)>)
    requires
        unique_names(es),
    ensures
        map_of(es).dom().finite(),
        map_of(es).dom().len() == es.len(),
    decreases es.len(),
{
    if es.len() > 0 {
        lemma_unique_drop_last(es);
        lemma_map_of_len(es.drop_last());
        lemma_map_of_domain(es.drop_last(), es.last().0@);
        assert(!map_of(es.drop_last()).contains_key(es.last().0@)) by {
            if map_of(es.drop_last()).contains_key(es.last().0@) {
                let i = choose|i: int|
                    0 <= i < es.drop_last().len() && (#[trigger] es.drop_last()[i]).0@ == es.last().0@;
                assert(es[i] == es.drop_last()[i]);
                assert(es[es.len() - 1] == es.last());
            }
        }
    }
}

/// A list of entries keyed by name, no name twice; it stands for a map from names to values.
pub struct NamedTable<V> {
    entries: Vec<(String, V)>,
}

impl<V> View for NamedTable<V> {
    type V = Map<Seq<char>, V>;

    closed spec fn view(&self) -> Map<Seq<char>, V> {
        map_of(self.entries@)
    }
}

impl<V> NamedTable<V> {
    #[verifier::type_invariant]
    closed spec fn inv(self) -> bool {
        unique_names(self.entries@)
    }

    /// The entries, in the order in which their names first came in.
    pub closed spec fn spec_entries(&self) -> Seq<(String, V)> {
        self.entries@
    }

    /// An empty table.
    pub fn new() -> (t: Self)
        ensures
            t@ == Map::<Seq<char>, V>::empty(),
            t.spec_entries().len() == 0,
    {
        NamedTable { entries: Vec::new() }
    }

    /// The position of the entry named `name`, if any.
    fn position(&self, name: &String) -> (r: Option<usize>)
        ensures
            match r {
                Some(i) => i < self.entries@.len() && self.entries@[i as int].0@ == name@,
                None => forall|i: int|
                    0 <= i < self.entries@.len() ==> (#[trigger] self.entries@[i]).0@ != name@,
            },
    {
        let mut i: usize = 0;
        while i < self.entries.len()
            invariant
                i <= self.entries@.len(),
                forall|k: int| 0 <= k < i ==> (#[trigger] self.entries@[k]).0@ != name@,
            decreases self.entries@.len() - i,
        {
            if self.entries[i].0 == *name {
                return Some(i);
            }
            i = i + 1;
        }
        None
    }

    /// Sets the value of `name`: a new entry at the end, or the old entry's value replaced.
    pub fn insert(&mut self, name: String, value: V)
        ensures
            final(self)@ == old(self)@.insert(name@, value),
            old(self)@.contains_key(name@) ==> exists|j: int|
                0 <= j < old(self).spec_entries().len() && (#[trigger] old(self).spec_entries()[j]).0@
                    == name@ && final(self).spec_entries() == old(self).spec_entries().update(
                    j,
                    (old(self).spec_entries()[j].0, value),
                ),
            !old(self)@.contains_key(name@) ==> final(self).spec_entries() == old(
                self,
            ).spec_entries().push((name, value)),
    {
        proof {
            use_type_invariant(&*self);
            lemma_map_of_domain(self.entries@, name@);
        }
        match self.position(&name) {
            Some(j) => {
                let ghost es = self.entries@;
                let old_name = self.entries[j].0.clone();
                proof {
                    lemma_map_of_update(es, j as int, value);
                }
                let ghost e2 = es.update(j as int, (es[j as int].0, value));
                assert(unique_names(e2)) by {
                    assert forall|a: int, b: int|
                        0 <= a < e2.len() && 0 <= b < e2.len() && a != b implies (
                        #[trigger] e2[a]).0@ != (#[trigger] e2[b]).0@ by {
                        assert(e2[a].0@ == es[a].0@);
                        assert(e2[b].0@ == es[b].0@);
                    }
                }
                let mut es_exec: Vec<(String, V)> = Vec::new();
                std::mem::swap(&mut es_exec, &mut self.entries);
                es_exec.set(j, (old_name, value));
                assert(es_exec@ =~= e2);
                self.entries = es_exec;
                assert(self.entries@ == es.update(j as int, (es[j as int].0, value)));
                assert(old(self).spec_entries()[j as int].0@ == name@);
            },
            None => {
                let ghost es = self.entries@;
                let mut es_exec: Vec<(String, V)> = Vec::new();
                std::mem::swap(&mut es_exec, &mut self.entries);
                es_exec.push((name, value));
                assert(es_exec@.drop_last() =~= es);
                assert(unique_names(es_exec@)) by {
                    assert forall|a: int, b: int|
                        0 <= a < es_exec@.len() && 0 <= b < es_exec@.len() && a != b
                            implies (#[trigger] es_exec@[a]).0@ != (
                        #[trigger] es_exec@[b]).0@ by {
                        if a < es.len() {
                            assert(es_exec@[a] == es[a]);
                        }
                        if b < es.len() {
                            assert(es_exec@[b] == es[b]);
                        }
                    }
                }
                self.entries = es_exec;
            },
        }
    }

    /// Puts `value` in the place of the value of `name`, which the table has, and gives the
    /// old value back.
    pub fn replace(&mut self, name: &String, value: V) -> (old_value: V)
        requires
            old(self)@.contains_key(name@),
        ensures
            old_value == old(self)@[name@],
            final(self)@ == old(self)@.insert(name@, value),
            exists|j: int|
                0 <= j < old(self).spec_entries().len() && (#[trigger] old(self).spec_entries()[j]).0@
                    == name@ && final(self).spec_entries() == old(self).spec_entries().update(
                    j,
                    (old(self).spec_entries()[j].0, value),
                ),
    {
        proof {
            use_type_invariant(&*self);
            lemma_map_of_domain(self.entries@, name@);
        }
        let j = match self.position(name) {
            Some(j) => j,
            None => {
                proof {
                    assert(false);
                }
                0
            },
        };
        let ghost es = self.entries@;
        proof {
            lemma_map_of_value(es, j as int);
            lemma_map_of_update(es, j as int, value);
        }
        let ghost e2 = es.update(j as int, (es[j as int].0, value));
        assert(unique_names(e2)) by {
            assert forall|a: int, b: int|
                0 <= a < e2.len() && 0 <= b < e2.len() && a != b implies (#[trigger] e2[a]).0@ != (
                #[trigger] e2[b]).0@ by {
                assert(e2[a].0@ == es[a].0@);
                assert(e2[b].0@ == es[b].0@);
            }
        }
        let mut es_exec: Vec<(String, V)> = Vec::new();
        std::mem::swap(&mut es_exec, &mut self.entries);
        let (key, old_value) = es_exec.remove(j);
        es_exec.insert(j, (key, value));
        assert(es_exec@ =~= e2);
        self.entries = es_exec;
        assert(old(self).spec_entries()[j as int].0@ == name@);
        old_value
    }

    /// The value of `name`, if the table has one.
    pub fn get(&self, name: &String) -> (r: Option<&V>)
        ensures
            match r {
                Some(v) => self@.contains_key(name@) && self@[name@] == *v,
                None => !self@.contains_key(name@),
            },
    {
        proof {
            use_type_invariant(self);
            lemma_map_of_domain(self.entries@, name@);
        }
        match self.position(name) {
            Some(j) => {
                proof {
                    lemma_map_of_value(self.entries@, j as int);
                }
                Some(&self.entries[j].1)
            },
            None => None,
        }
    }

    /// Tells whether the table has a value for `name`.
    pub fn contains_key(&self, name: &String) -> (b: bool)
        ensures
            b == self@.contains_key(name@),
    {
        proof {
            use_type_invariant(self);
            lemma_map_of_domain(self.entries@, name@);
        }
        self.position(name).is_some()
    }

    /// The number of entries, which is the number of names in the map.
    pub fn len(&self) -> (n: usize)
        ensures
            n == self.spec_entries().len(),
    {
        self.entries.len()
    }

    /// The entries, in order; they name no name twice and give the map.
    pub fn entries(&self) -> (r: &Vec<(String, V)>)
        ensures
            r@ == self.spec_entries(),
            unique_names(r@),
            map_of(r@) == self@,
    {
        proof {
            use_type_invariant(self);
        }
        &self.entries
    }
}

} // verus!