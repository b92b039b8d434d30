//! A map from names to components that keeps the order in which they were added.
use indexmap::IndexMap;
use vstd::prelude::*;

verus! {

/// A map of the `indexmap` crate: its entries keep the order in which their
/// keys were first inserted.
#[verifier::external_type_specification]
#[verifier::external_body]
#[verifier::reject_recursive_types(K)]
#[verifier::reject_recursive_types(V)]
#[verifier::reject_recursive_types(S)]
pub struct ExIndexMap<K, V, S>(IndexMap<K, V, S>);

/// The entries of a map from names to positions, in the map's order.
pub uninterp spec fn positions_of(map: IndexMap<String, usize>) -> Seq<(Seq<char>, usize)>;

/// `IndexMap::new`: a map without entries.
#[verifier::external_body]
fn positions_new() -> (map: IndexMap<String, usize>)
    ensures
        positions_of(map) == Seq::<(Seq<char>, usize)>::empty(),
{
    IndexMap::new()
}

/// `IndexMap::insert` of a key that the map does not hold: the entry becomes
/// the last one.
#[verifier::external_body]
fn positions_insert(map: &mut IndexMap<String, usize>, key: String, position: usize)
    requires
        forall|i: int| 0 <= i < positions_of(*old(map)).len() ==> positions_of(*old(map))[i].0 != key@,
    ensures
        positions_of(*final(map)) == positions_of(*old(map)).push((key@, position)),
{
    map.insert(key, position);
}

/// `IndexMap::get`: the value of the entry with this key, where there is one.
#[verifier::external_body]
fn positions_get(map: &IndexMap<String, usize>, key: &str) -> (position: Option<usize>)
    ensures
        match position {
            Some(found) => exists|i: int|
                0 <= i < positions_of(*map).len() && #[trigger] positions_of(*map)[i] == (key@, found),
            None => forall|i: int|
                0 <= i < positions_of(*map).len() ==> #[trigger] positions_of(*map)[i].0 != key@,
        },
{
    map.get(key).copied()
}

/// `IndexMap::get_index`: the key of the entry at this place in the order.
#[verifier::external_body]
fn positions_key(map: &IndexMap<String, usize>, index: usize) -> (key: &str)
    requires
        index < positions_of(*map).len(),
    ensures
        key@ == positions_of(*map)[index as int].0,
{
    map.get_index(index).unwrap().0.as_str()
}

/// The keys of a sequence of entries.
pub open spec fn keys<T>(entries: Seq<(Seq<char>, T)>) -> Seq<Seq<char>> {
    Seq::new(entries.len(), |i: int| entries[i].0)
}

/// What a list of names and components stands for.
pub open spec fn entry_models<T>(entries: Seq<(String, T)>) -> Seq<(Seq<char>, T)> {
    Seq::new(entries.len(), |i: int| (entries[i].0@, entries[i].1))
}

/// Whether no key occurs twice.
pub open spec fn distinct_keys<T>(entries: Seq<(Seq<char>, T)>) -> bool {
    forall|i: int, j: int|
        0 <= i < j < entries.len() ==> #[trigger] entries[i].0 != #[trigger] entries[j].0
}

/// The entries with a component put under a name: at the end, or, where the
/// name is taken, in place of the component that had it.
pub open spec fn put<T>(
    entries: Seq<(Seq<char>, T)>,
    key: Seq<char>,
    component: T,
) -> Seq<(Seq<char>, T)>
    decreases entries.len(),
{
    if entries.len() == 0 {
        seq![(key, component)]
    } else if entries[0].0 == key {
        entries.update(0, (key, component))
    } else {
        seq![entries[0]] + put(entries.skip(1), key, component)
    }
}

/// Putting a component under a name that is taken changes one entry.
proof fn put_taken<T>(entries: Seq<(Seq<char>, T)>, key: Seq<char>, component: T, i: int)
    requires
        distinct_keys(entries),
        0 <= i < entries.len(),
        entries[i].0 == key,
    ensures
        put(entries, key, component) == entries.update(i, (key, component)),
    decreases entries.len(),
{
    if i > 0 {
        assert(entries[0].0 != key);
        let rest = entries.skip(1);
        assert(distinct_keys(rest)) by {
            assert forall|a: int, b: int| 0 <= a < b < rest.len() implies (#[trigger] rest[a]).0 != (
            #[trigger] rest[b]).0 by {
                assert(rest[a] == entries[a + 1]);
                assert(rest[b] == entries[b + 1]);
            }
        }
        assert(rest[i - 1] == entries[i]);
        put_taken(rest, key, component, i - 1);
        assert(seq![entries[0]] + rest.update(i - 1, (key, component)) =~= entries.update(
            i,
            (key, component),
        ));
    }
}

/// Putting a component under a new name adds one entry at the end.
pub proof fn put_new<T>(entries: Seq<(Seq<char>, T)>, key: Seq<char>, component: T)
    requires
        forall|i: int| 0 <= i < entries.len() ==> (#[trigger] entries[i]).0 != key,
    ensures
        put(entries, key, component) == entries.push((key, component)),
    decreases entries.len(),
{
    if entries.len() == 0 {
        assert(seq![(key, component)] =~= entries.push((key, component)));
    } else {
        let rest = entries.skip(1);
        assert forall|i: int| 0 <= i < rest.len() implies (#[trigger] rest[i]).0 != key by {
            assert(rest[i] == entries[i + 1]);
        }
        put_new(rest, key, component);
        assert(entries[0].0 != key);
        assert(seq![entries[0]] + rest.push((key, component)) =~= entries.push((key, component)));
    }
}

/// A component that was put under a name, and no other, is found there. Under
/// every other name there is what was there before.
pub proof fn put_is_found<T>(entries: Seq<(Seq<char>, T)>, key: Seq<char>, component: T)
    requires
        distinct_keys(entries),
    ensures
        distinct_keys(put(entries, key, component)),
        keys(put(entries, key, component)).contains(key),
        forall|found: T| #[trigger]
            put(entries, key, component).contains((key, found)) <==> found == component,
        forall|other: Seq<char>, found: T|
            other != key ==> (#[trigger] put(entries, key, component).contains((other, found))
                <==> entries.contains((other, found))),
{
    let after = put(entries, key, component);
    let place = if exists|i: int| 0 <= i < entries.len() && (#[trigger] entries[i]).0 == key {
        let i = choose|i: int| 0 <= i < entries.len() && (#[trigger] entries[i]).0 == key;
        put_taken(entries, key, component, i);
        i
    } else {
        put_new(entries, key, component);
        entries.len() as int
    };
    assert(after[place] == (key, component));
    assert(keys(after)[place] == key);
    assert forall|a: int| 0 <= a < after.len() && a != place implies #[trigger] after[a] == entries[a]
        && entries[a].0 != key by {
        if place < entries.len() {
            if a < place {
                assert(entries[a].0 != entries[place].0);
            } else {
                assert(entries[place].0 != entries[a].0);
            }
        }
    }
    assert forall|a: int, b: int| 0 <= a < b < after.len() implies #[trigger] after[a].0
        != #[trigger] after[b].0 by {
        if a != place && b != place {
            assert(entries[a].0 != entries[b].0);
        }
    }
    assert forall|found: T| #[trigger] after.contains((key, found)) <==> found == component by {
        if after.contains((key, found)) {
            let a = choose|a: int| 0 <= a < after.len() && after[a] == (key, found);
            assert(a == place);
        }
    }
    assert forall|other: Seq<char>, found: T| other != key implies (#[trigger] after.contains(
        (other, found),
    ) <==> entries.contains((other, found))) by {
        if after.contains((other, found)) {
            let a = choose|a: int| 0 <= a < after.len() && after[a] == (other, found);
            assert(entries[a] == (other, found));
        }
        if entries.contains((other, found)) {
            let a = choose|a: int| 0 <= a < entries.len() && entries[a] == (other, found);
            assert(a != place);
            assert(after[a] == entries[a]);
        }
    }
}

/// Components by name, in the order in which they were added.
///
/// Adding a component under a name that is taken replaces the component and
/// keeps its place.
pub struct ComponentMap<T> {
    positions: IndexMap<String, usize>,
    components: Vec<T>,
}

impl<T> View for ComponentMap<T> {
    type V = Seq<(Seq<char>, T)>;

    closed spec fn view(&self) -> Seq<(Seq<char>, T)> {
        Seq::new(
            self.components@.len(),
            |i: int| (positions_of(self.positions)[i].0, self.components@[i]),
        )
    }
}

impl<T> ComponentMap<T> {
    #[verifier::type_invariant]
    spec fn positions_match(self) -> bool {
        &&& positions_of(self.positions).len() == self.components@.len()
        &&& forall|i: int|
            0 <= i < self.components@.len() ==> (#[trigger] positions_of(self.positions)[i]).1 == i
        &&& distinct_keys(positions_of(self.positions))
    }

    /// A map without components.
    pub fn new() -> (map: Self)
        ensures
            map@ == Seq::<(Seq<char>, T)>::empty(),
    {
        let map = ComponentMap { positions: positions_new(), components: Vec::new() };
        assert(map@ =~= Seq::<(Seq<char>, T)>::empty());
        map
    }

    /// How many components the map holds.
    pub fn len(&self) -> (len: usize)
        ensures
            len == self@.len(),
            distinct_keys(self@),
    {
        proof {
            use_type_invariant(self);
        }
        self.components.len()
    }

    /// Whether the map holds no component.
    pub fn is_empty(&self) -> (empty: bool)
        ensures
            empty == (self@.len() == 0),
    {
        self.components.len() == 0
    }

    /// The name at a place in the order.
    pub fn key_at(&self, index: usize) -> (key: &str)
        requires
            index < self@.len(),
        ensures
            key@ == self@[index as int].0,
    {
        proof {
            use_type_invariant(self);
        }
        positions_key(&self.positions, index)
    }

    /// The component at a place in the order.
    pub fn value_at(&self, index: usize) -> (component: &T)
        requires
            index < self@.len(),
        ensures
            *component == self@[index as int].1,
    {
        &self.components[index]
    }

    /// The place of a name in the order.
    pub fn index_of(&self, key: &str) -> (index: Option<usize>)
        ensures
            match index {
                Some(i) => i < self@.len() && self@[i as int].0 == key@,
                None => forall|i: int| 0 <= i < self@.len() ==> (#[trigger] self@[i]).0 != key@,
            },
            distinct_keys(self@),
    {
        proof {
            use_type_invariant(self);
        }
        let index = positions_get(&self.positions, key);
        proof {
            let entries = positions_of(self.positions);
            if index is None {
                assert forall|i: int| 0 <= i < self@.len() implies (#[trigger] self@[i]).0 != key@ by {
                    assert(entries[i].0 != key@);
                }
            }
        }
        index
    }

    /// The component with the given name.
    pub fn get(&self, key: &str) -> (component: Option<&T>)
        ensures
            match component {
                Some(found) => self@.contains((key@, *found)),
                None => forall|i: int| 0 <= i < self@.len() ==> (#[trigger] self@[i]).0 != key@,
            },
            distinct_keys(self@),
    {
        match self.index_of(key) {
            Some(index) => {
                assert(self@[index as int] == (key@, self.components@[index as int]));
                Some(&self.components[index])
            },
            None => None,
        }
    }

    /// Whether a component has the given name.
    pub fn contains_key(&self, key: &str) -> (found: bool)
        ensures
            found == keys(self@).contains(key@),
    {
        match self.index_of(key) {
            Some(index) => {
                assert(keys(self@)[index as int] == key@);
                true
            },
            None => {
                assert forall|i: int| 0 <= i < keys(self@).len() implies keys(self@)[i] != key@ by {
                    assert(self@[i].0 != key@);
                }
                false
            },
        }
    }

    /// Puts a component under a name: at the end of the order, or, where the
    /// name is taken, in place of the component that had it.
    pub fn insert(&mut self, key: &str, component: T)
        ensures
            final(self)@ == put(old(self)@, key@, component),
            distinct_keys(old(self)@),
    {
        let mut taken: ComponentMap<T> = ComponentMap::new();
        std::mem::swap(self, &mut taken);
        let ghost before = taken@;
        let index = taken.index_of(key);
        proof {
            use_type_invariant(&taken);
        }
        let ComponentMap { mut positions, mut components } = taken;
        match index {
            Some(index) => {
                components.set(index, component);
                *self = ComponentMap { positions, components };
                proof {
                    assert(self@ =~= before.update(index as int, (key@, component)));
                    assert(distinct_keys(before)) by {
                        assert forall|a: int, b: int| 0 <= a < b < before.len() implies (
                        #[trigger] before[a]).0 != (#[trigger] before[b]).0 by {
                            assert(positions_of(positions)[a].0 != positions_of(positions)[b].0);
                        }
                    }
                    put_taken(before, key@, component, index as int);
                }
            },
            None => {
                proof {
                    assert forall|i: int| 0 <= i < positions_of(positions).len() implies positions_of(
                        positions,
                    )[i].0 != key@ by {
                        assert(before[i].0 == positions_of(positions)[i].0);
                    }
                    put_new(before, key@, component);
                }
                let position: usize = components.len();
                positions_insert(&mut positions, key.to_owned(), position);
                components.push(component);
                *self = ComponentMap { positions, components };
                assert(self@ =~= before.push((key@, component)));
            },
        }
    }

    /// Adds the components of another map, none of whose names is taken.
    pub fn extend(&mut self, other: ComponentMap<T>)
        requires
            forall|i: int, j: int|
                0 <= i < old(self)@.len() && 0 <= j < other@.len() ==> (#[trigger] old(self)@[i]).0 != (
                #[trigger] other@[j]).0,
        ensures
            final(self)@ == old(self)@ + other@,
    {
        proof {
            use_type_invariant(&other);
        }
        let ghost before = self@;
        let ghost added = other@;
        let ComponentMap { positions, components } = other;
        let ghost all = components@;
        let count: usize = components.len();
        let mut index: usize = 0;
        for component in iter: components
            invariant
                iter.seq() == all,
                index == iter.index(),
                all.len() == added.len(),
                all.len() == positions_of(positions).len(),
                all.len() == count,
                distinct_keys(positions_of(positions)),
                forall|i: int|
                    0 <= i < added.len() ==> #[trigger] added[i] == (positions_of(positions)[i].0, all[i]),
                forall|i: int, j: int|
                    0 <= i < before.len() && 0 <= j < added.len() ==> (#[trigger] before[i]).0 != (
                    #[trigger] added[j]).0,
                self@ == before + added.take(iter.index()),
        {
            let key = positions_key(&positions, index);
            proof {
                let held = before + added.take(iter.index());
                assert(key@ == added[index as int].0);
                assert forall|i: int| 0 <= i < held.len() implies (#[trigger] held[i]).0 != key@ by {
                    if i < before.len() {
                        assert(held[i] == before[i]);
                    } else {
                        let k = i - before.len();
                        assert(held[i] == added[k]);
                        assert(positions_of(positions)[k].0 != positions_of(
                            positions,
                        )[index as int].0);
                    }
                }
                put_new(held, key@, component);
                assert(held.push((key@, component)) =~= before + added.take(iter.index() + 1));
            }
            self.insert(key, component);
            index = index + 1;
        }
        assert(added.take(added.len() as int) =~= added);
    }

    /// The names and the components, in order.
    pub fn into_entries(self) -> (entries: Vec<(String, T)>)
        ensures
            entry_models(entries@) == self@,
            distinct_keys(self@),
    {
        proof {
            use_type_invariant(&self);
        }
        let ghost all = self@;
        let ComponentMap { positions, components } = self;
        let ghost values = components@;
        let mut entries: Vec<(String, T)> = Vec::new();
        let mut index: usize = 0;
        let count: usize = components.len();
        for component in iter: components
            invariant
                iter.seq() == values,
                index == iter.index(),
                count == values.len(),
                values.len() == all.len(),
                values.len() == positions_of(positions).len(),
                forall|i: int|
                    0 <= i < all.len() ==> #[trigger] all[i] == (positions_of(positions)[i].0, values[i]),
                entry_models(entries@) == all.take(index as int),
        {
            let ghost before = entries@;
            entries.push((positions_key(&positions, index).to_owned(), component));
            assert(entry_models(entries@) =~= entry_models(before).push(all[index as int]));
            assert(entry_models(entries@) =~= all.take(index + 1));
            index = index + 1;
        }
        assert(all.take(index as int) =~= all);
        entries
    }

    /// Adds a component under a name that is not taken.
    pub fn add(&mut self, key: &str, component: T)
        requires
            forall|i: int| 0 <= i < old(self)@.len() ==> (#[trigger] old(self)@[i]).0 != key@,
        ensures
            final(self)@ == old(self)@.push((key@, component)),
    {
        proof {
            put_new(self@, key@, component);
        }
        self.insert(key, component);
    }
}

/// What was put under a name is found there, and under every other name what was
/// there before.
pub proof fn components_are_found_by_name<T>(
    map: &mut ComponentMap<T>,
    key: &str,
    component: T,
    other: &str,
    before: Option<&T>,
    after: Option<&T>,
)
    requires
        call_ensures(ComponentMap::<T>::get, (&*old(map), other), before),
        call_ensures(ComponentMap::<T>::insert, (map, key, component), ()),
        call_ensures(ComponentMap::<T>::get, (&*final(map), other), after),
    ensures
        other@ == key@ ==> after is Some && *after->0 == component,
        other@ != key@ ==> (after is Some <==> before is Some) && (after is Some ==> *after->0
            == *before->0),
{
    let entries = old(map)@;
    let changed = final(map)@;
    put_is_found(entries, key@, component);
    if other@ == key@ {
        assert(changed.contains((key@, component)));
        let i = choose|i: int| 0 <= i < changed.len() && changed[i] == (key@, component);
        assert(changed[i].0 == key@);
    } else {
        if before is Some {
            assert(entries.contains((other@, *before->0)));
            assert(changed.contains((other@, *before->0)));
            let i = choose|i: int| 0 <= i < changed.len() && changed[i] == (other@, *before->0);
            assert(changed[i].0 == other@);
            assert(after is Some);
            assert(changed.contains((other@, *after->0)));
            let j = choose|j: int| 0 <= j < changed.len() && changed[j] == (other@, *after->0);
            assert(changed[i].0 == changed[j].0);
            assert(distinct_keys(changed));
            assert(i == j);
        }
        if after is Some {
            assert(changed.contains((other@, *after->0)));
            assert(entries.contains((other@, *after->0)));
            let i = choose|i: int| 0 <= i < entries.len() && entries[i] == (other@, *after->0);
            assert(entries[i].0 == other@);
        }
    }
}

/// A component under a new name comes last, and the others keep their places; one
/// under a name that is taken takes the place of the one that had it.
pub proof fn components_keep_their_places<T>(
    map: &mut ComponentMap<T>,
    key: &str,
    component: T,
    i: int,
)
    requires
        call_ensures(ComponentMap::<T>::insert, (map, key, component), ()),
    ensures
        (forall|j: int| 0 <= j < old(map)@.len() ==> (#[trigger] old(map)@[j]).0 != key@) ==> {
            &&& final(map)@.len() == old(map)@.len() + 1
            &&& final(map)@[old(map)@.len() as int] == (key@, component)
        },
        0 <= i < old(map)@.len() && old(map)@[i].0 == key@ ==> final(map)@.len() == old(map)@.len()
            && final(map)@[i] == (key@, component),
        0 <= i < old(map)@.len() && old(map)@[i].0 != key@ ==> final(map)@[i] == old(map)@[i],
{
    let entries = old(map)@;
    if exists|j: int| 0 <= j < entries.len() && (#[trigger] entries[j]).0 == key@ {
        let j = choose|j: int| 0 <= j < entries.len() && (#[trigger] entries[j]).0 == key@;
        put_taken(entries, key@, component, j);
    } else {
        put_new(entries, key@, component);
    }
}

} // verus!
