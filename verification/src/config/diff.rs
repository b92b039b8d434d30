//! What changes between two configurations.
//!
//! A running pipeline takes over a new configuration by stopping what is gone,
//! starting what is new and restarting what has changed. Everything else keeps
//! running.
use vstd::prelude::*;

use crate::component_map::ComponentMap;
use crate::config::json::{json_equal, json_value, same_json};
use crate::config::sink::SinkOuter;
use crate::config::source::SourceOuter;
use crate::config::table::{derived_keys, EnrichmentTableOuter};
use crate::config::transform::TransformOuter;
use crate::config::Config;
use crate::id::{key_texts, output_names, ComponentKey, KeySet, OutputId};
use crate::text::same_text;

verus! {

/// A component whose settings can be compared.
pub trait Settings {
    /// Whether two components are set up alike.
    spec fn agrees(&self, other: &Self) -> bool;

    /// Decides whether two components are set up alike.
    fn same_settings(&self, other: &Self) -> (same: bool)
        ensures
            same == self.agrees(other),
    ;

    /// It does not matter which of two components comes first.
    proof fn agrees_both_ways(&self, other: &Self)
        ensures
            self.agrees(other) == other.agrees(self),
    ;

    /// A component is set up as itself.
    proof fn agrees_with_itself(&self)
        ensures
            self.agrees(self),
    ;
}

/// Whether two lists name the same outputs in the same order.
fn same_outputs(a: &Vec<OutputId>, b: &Vec<OutputId>) -> (same: bool)
    ensures
        same == (output_names(a@) == output_names(b@)),
{
    if a.len() != b.len() {
        assert(output_names(a@).len() != output_names(b@).len());
        return false;
    }
    let mut i: usize = 0;
    while i < a.len()
        invariant
            i <= a.len(),
            a.len() == b.len(),
            forall|j: int| 0 <= j < i ==> (#[trigger] a@[j])@ == b@[j]@,
        decreases a.len() - i,
    {
        if !a[i].same(&b[i]) {
            assert(output_names(a@)[i as int] != output_names(b@)[i as int]);
            return false;
        }
        i = i + 1;
    }
    assert(output_names(a@) =~= output_names(b@));
    true
}

impl Settings for SourceOuter {
    open spec fn agrees(&self, other: &Self) -> bool {
        &&& self.proxy.agrees(other.proxy)
        &&& same_json(self.graph@, other.graph@)
        &&& self.inner.component_type@ == other.inner.component_type@
        &&& same_json(self.inner.settings@, other.inner.settings@)
    }

    fn same_settings(&self, other: &Self) -> (same: bool) {
        self.proxy.same(&other.proxy) && json_equal(self.graph.as_str(), other.graph.as_str())
            && same_text(
            self.inner.component_type.as_str(),
            other.inner.component_type.as_str(),
        ) && json_equal(self.inner.settings.as_str(), other.inner.settings.as_str())
    }

    proof fn agrees_both_ways(&self, other: &Self) {
    }

    proof fn agrees_with_itself(&self) {
    }
}

impl Settings for TransformOuter<OutputId> {
    open spec fn agrees(&self, other: &Self) -> bool {
        &&& output_names(self.inputs@) == output_names(other.inputs@)
        &&& same_json(self.graph@, other.graph@)
        &&& self.inner.component_type@ == other.inner.component_type@
        &&& same_json(self.inner.settings@, other.inner.settings@)
    }

    fn same_settings(&self, other: &Self) -> (same: bool) {
        same_outputs(&self.inputs, &other.inputs) && json_equal(
            self.graph.as_str(),
            other.graph.as_str(),
        ) && same_text(
            self.inner.component_type.as_str(),
            other.inner.component_type.as_str(),
        ) && json_equal(self.inner.settings.as_str(), other.inner.settings.as_str())
    }

    proof fn agrees_both_ways(&self, other: &Self) {
    }

    proof fn agrees_with_itself(&self) {
    }
}

impl Settings for SinkOuter<OutputId> {
    open spec fn agrees(&self, other: &Self) -> bool {
        &&& output_names(self.inputs@) == output_names(other.inputs@)
        &&& crate::id::port_text(self.healthcheck_uri) == crate::id::port_text(
            other.healthcheck_uri,
        )
        &&& self.healthcheck.agrees(other.healthcheck)
        &&& self.buffer.stages@ == other.buffer.stages@
        &&& self.proxy.agrees(other.proxy)
        &&& same_json(self.graph@, other.graph@)
        &&& self.inner.component_type@ == other.inner.component_type@
        &&& same_json(self.inner.settings@, other.inner.settings@)
    }

    fn same_settings(&self, other: &Self) -> (same: bool) {
        same_outputs(&self.inputs, &other.inputs) && crate::id::same_port(
            &self.healthcheck_uri,
            &other.healthcheck_uri,
        ) && self.healthcheck.same(&other.healthcheck) && self.buffer.same(&other.buffer)
            && self.proxy.same(&other.proxy) && json_equal(
            self.graph.as_str(),
            other.graph.as_str(),
        ) && same_text(
            self.inner.component_type.as_str(),
            other.inner.component_type.as_str(),
        ) && json_equal(self.inner.settings.as_str(), other.inner.settings.as_str())
    }

    proof fn agrees_both_ways(&self, other: &Self) {
    }

    proof fn agrees_with_itself(&self) {
    }
}

impl Settings for EnrichmentTableOuter<OutputId> {
    open spec fn agrees(&self, other: &Self) -> bool {
        &&& output_names(self.inputs@) == output_names(other.inputs@)
        &&& same_json(self.graph@, other.graph@)
        &&& same_json(self.settings@, other.settings@)
    }

    fn same_settings(&self, other: &Self) -> (same: bool) {
        same_outputs(&self.inputs, &other.inputs) && json_equal(
            self.graph.as_str(),
            other.graph.as_str(),
        ) && json_equal(self.settings.as_str(), other.settings.as_str())
    }

    proof fn agrees_both_ways(&self, other: &Self) {
    }

    proof fn agrees_with_itself(&self) {
    }
}

/// The names of the components of a map.
pub open spec fn names<C>(map: Seq<(Seq<char>, C)>) -> Set<Seq<char>> {
    Set::new(|key: Seq<char>| exists|i: int| 0 <= i < map.len() && (#[trigger] map[i]).0 == key)
}

/// The names of the components that both maps have and that are not set up
/// alike in both.
pub open spec fn differing<C: Settings>(
    old: Seq<(Seq<char>, C)>,
    new: Seq<(Seq<char>, C)>,
) -> Set<Seq<char>> {
    Set::new(
        |key: Seq<char>|
            exists|i: int, j: int|
                0 <= i < old.len() && 0 <= j < new.len() && (#[trigger] old[i]).0 == key && (
                #[trigger] new[j]).0 == key && !old[i].1.agrees(&new[j].1),
    )
}

/// What a [`Difference`] stands for.
pub ghost struct DifferenceModel {
    pub to_remove: Set<Seq<char>>,
    pub to_change: Set<Seq<char>>,
    pub to_add: Set<Seq<char>>,
}

/// What changes from one map of components to another, where the components
/// in `need_change` count as changed in any case.
pub open spec fn difference<C: Settings>(
    old: Seq<(Seq<char>, C)>,
    new: Seq<(Seq<char>, C)>,
    need_change: Set<Seq<char>>,
) -> DifferenceModel {
    DifferenceModel {
        to_remove: names(old).difference(names(new)),
        to_change: differing(old, new).union(names(old).intersect(names(new)).intersect(need_change)),
        to_add: names(new).difference(names(old)),
    }
}

/// The names of the components that come with the tables of a map.
pub open spec fn table_components(
    tables: Seq<(Seq<char>, EnrichmentTableOuter<OutputId>)>,
) -> Set<Seq<char>> {
    Set::new(
        |key: Seq<char>|
            exists|i: int|
                0 <= i < tables.len() && derived_keys((#[trigger] tables[i]).1, tables[i].0).contains(
                    key,
                ),
    )
}

/// The names of the components that come with a table that both maps have,
/// come with it in both, and whose table is not set up alike in both.
pub open spec fn changed_table_components(
    old: Seq<(Seq<char>, EnrichmentTableOuter<OutputId>)>,
    new: Seq<(Seq<char>, EnrichmentTableOuter<OutputId>)>,
) -> Set<Seq<char>> {
    Set::new(
        |key: Seq<char>|
            exists|i: int, j: int|
                0 <= i < old.len() && 0 <= j < new.len() && (#[trigger] old[i]).0 == (
                #[trigger] new[j]).0 && derived_keys(old[i].1, old[i].0).contains(key) && derived_keys(
                    new[j].1,
                    new[j].0,
                ).contains(key) && !old[i].1.agrees(&new[j].1),
    )
}

/// What changes of the components that come with tables.
pub open spec fn table_difference(
    old: Seq<(Seq<char>, EnrichmentTableOuter<OutputId>)>,
    new: Seq<(Seq<char>, EnrichmentTableOuter<OutputId>)>,
) -> DifferenceModel {
    DifferenceModel {
        to_remove: table_components(old).difference(table_components(new)),
        to_change: changed_table_components(old, new),
        to_add: table_components(new).difference(table_components(old)),
    }
}

/// Components of one kind to stop, to restart and to start.
#[derive(Debug)]
pub struct Difference {
    /// The components that are gone.
    pub to_remove: KeySet,
    /// The components that have changed.
    pub to_change: KeySet,
    /// The components that are new.
    pub to_add: KeySet,
}

impl View for Difference {
    type V = DifferenceModel;

    open spec fn view(&self) -> DifferenceModel {
        DifferenceModel {
            to_remove: self.to_remove@,
            to_change: self.to_change@,
            to_add: self.to_add@,
        }
    }
}

/// The names of a map that another map does not have.
fn names_missing<C>(from: &ComponentMap<C>, other: &ComponentMap<C>) -> (missing: KeySet)
    ensures
        missing@ == names(from@).difference(names(other@)),
{
    let mut missing = KeySet::new();
    let mut i: usize = 0;
    let len: usize = from.len();
    assert(names(from@.take(0)) =~= Set::<Seq<char>>::empty());
    while i < len
        invariant
            i <= len,
            len == from@.len(),
            missing@ == names(from@.take(i as int)).difference(names(other@)),
        decreases len - i,
    {
        let key = from.key_at(i);
        let found = other.index_of(key);
        proof {
            names_take(from@, i as int);
            if found is Some {
                assert(other@[found->0 as int].0 == key@);
                assert(names(other@).contains(key@));
            } else {
                assert(!names(other@).contains(key@));
            }
        }
        if found.is_none() {
            missing.insert(ComponentKey::new(key));
        }
        assert(missing@ =~= names(from@.take(i + 1)).difference(names(other@)));
        i = i + 1;
    }
    assert(from@.take(i as int) =~= from@);
    missing
}

/// One more entry adds one more name.
proof fn names_take<C>(map: Seq<(Seq<char>, C)>, i: int)
    requires
        0 <= i < map.len(),
    ensures
        names(map.take(i + 1)) == names(map.take(i)).insert(map[i].0),
{
    let a = map.take(i);
    let b = map.take(i + 1);
    assert forall|key: Seq<char>| names(b).contains(key) == names(a).insert(map[i].0).contains(key) by {
        if names(a).contains(key) {
            let k = choose|k: int| 0 <= k < a.len() && (#[trigger] a[k]).0 == key;
            assert(b[k].0 == key);
        }
        if key == map[i].0 {
            assert(b[i].0 == key);
        }
        if names(b).contains(key) {
            let k = choose|k: int| 0 <= k < b.len() && (#[trigger] b[k]).0 == key;
            if k < i {
                assert(a[k].0 == key);
            }
        }
    }
    assert(names(b) =~= names(a).insert(map[i].0));
}

impl Difference {
    /// What changes from one map of components to another, where the
    /// components in `need_change` count as changed in any case.
    pub fn new<C: Settings>(
        old: &ComponentMap<C>,
        new: &ComponentMap<C>,
        need_change: &KeySet,
    ) -> (difference: Self)
        ensures
            difference@ == self::difference(old@, new@, need_change@),
    {
        let mut to_change = KeySet::new();
        let mut i: usize = 0;
        let len: usize = old.len();
        let new_len: usize = new.len();
        let ghost whole = self::difference(old@, new@, need_change@).to_change;
        assert(whole.intersect(names(old@.take(0))) =~= Set::<Seq<char>>::empty());
        while i < len
            invariant
                i <= len,
                len == old@.len(),
                crate::component_map::distinct_keys(old@),
                crate::component_map::distinct_keys(new@),
                whole == self::difference(old@, new@, need_change@).to_change,
                to_change@ == whole.intersect(names(old@.take(i as int))),
            decreases len - i,
        {
            let key = ComponentKey::new(old.key_at(i));
            proof {
                names_take(old@, i as int);
            }
            let ghost before = to_change@;
            match new.index_of(key.id()) {
                Some(j) => {
                    let same = old.value_at(i).same_settings(new.value_at(j));
                    let needed = need_change.contains(&key);
                    proof {
                        assert(old@[i as int].0 == key@);
                        assert(new@[j as int].0 == key@);
                        assert(names(old@).contains(key@));
                        assert(names(new@).contains(key@));
                        assert(differing(old@, new@).contains(key@) == !same) by {
                            if differing(old@, new@).contains(key@) {
                                let (a, b) = choose|a: int, b: int|
                                    0 <= a < old@.len() && 0 <= b < new@.len() && (
                                    #[trigger] old@[a]).0 == key@ && (#[trigger] new@[b]).0 == key@
                                        && !old@[a].1.agrees(&new@[b].1);
                                if a < i {
                                    assert(old@[a].0 != old@[i as int].0);
                                }
                                if i < a {
                                    assert(old@[i as int].0 != old@[a].0);
                                }
                                if b < j {
                                    assert(new@[b].0 != new@[j as int].0);
                                }
                                if j < b {
                                    assert(new@[j as int].0 != new@[b].0);
                                }
                            }
                        }
                        assert(whole.contains(key@) == (!same || needed));
                    }
                    if !same || needed {
                        to_change.insert(key);
                    }
                },
                None => {
                    proof {
                        assert(!names(new@).contains(key@));
                        assert(!differing(old@, new@).contains(key@));
                        assert(!whole.contains(key@));
                    }
                },
            }
            assert(to_change@ =~= whole.intersect(names(old@.take(i + 1))));
            i = i + 1;
        }
        proof {
            assert(old@.take(i as int) =~= old@);
            assert forall|key: Seq<char>| whole.contains(key) implies names(old@).contains(key) by {
                if differing(old@, new@).contains(key) {
                    let (a, b) = choose|a: int, b: int|
                        0 <= a < old@.len() && 0 <= b < new@.len() && (#[trigger] old@[a]).0 == key && (
                        #[trigger] new@[b]).0 == key && !old@[a].1.agrees(&new@[b].1);
                    assert(old@[a].0 == key);
                }
            }
            assert(to_change@ =~= whole);
        }
        Difference {
            to_remove: names_missing(old, new),
            to_change,
            to_add: names_missing(new, old),
        }
    }

    /// What changes of the components that come with enrichment tables.
    pub fn from_enrichment_tables(
        old: &ComponentMap<EnrichmentTableOuter<OutputId>>,
        new: &ComponentMap<EnrichmentTableOuter<OutputId>>,
    ) -> (difference: Self)
        ensures
            difference@ == table_difference(old@, new@),
    {
        let old_len: usize = old.len();
        let new_len: usize = new.len();
        let old_table_keys = extract_table_component_keys(old);
        let new_table_keys = extract_table_component_keys(new);
        let ghost changed = changed_table_components(old@, new@);
        let ghost all = pair_texts(old_table_keys@);
        let mut to_change = KeySet::new();
        let mut i: usize = 0;
        while i < old_table_keys.len()
            invariant
                i <= old_table_keys.len(),
                all == pair_texts(old_table_keys@),
                changed == changed_table_components(old@, new@),
                lists_pairs(all, old@),
                lists_pairs(pair_texts(new_table_keys@), new@),
                crate::component_map::distinct_keys(old@),
                crate::component_map::distinct_keys(new@),
                forall|key: Seq<char>| #[trigger]
                    to_change@.contains(key) ==> changed.contains(key),
                forall|k: int|
                    0 <= k < i && changed_pair(old@, new@, #[trigger] all[k]) ==> to_change@.contains(
                        all[k].1,
                    ),
            decreases old_table_keys.len() - i,
        {
            let pair = &old_table_keys[i];
            let ghost before = to_change@;
            assert(all[i as int] == (pair.0@, pair.1@));
            assert(all.contains(all[i as int]));
            if holds_pair(&new_table_keys, &pair.0, &pair.1) {
                let a = old.index_of(pair.0.id());
                let b = new.index_of(pair.0.id());
                if let (Some(a), Some(b)) = (a, b) {
                    let same = old.value_at(a).same_settings(new.value_at(b));
                    proof {
                        assert(old@[a as int].0 == pair.0@);
                        assert(new@[b as int].0 == pair.0@);
                        only_entry(old@, a as int);
                        only_entry(new@, b as int);
                        assert(derived_keys(old@[a as int].1, old@[a as int].0).contains(pair.1@));
                        assert(derived_keys(new@[b as int].1, new@[b as int].0).contains(pair.1@));
                        assert(changed_pair(old@, new@, all[i as int]) == !same);
                        if !same {
                            assert(changed.contains(pair.1@));
                        }
                    }
                    if !same {
                        to_change.insert(pair.1.clone());
                    }
                }
            } else {
                assert(!changed_pair(old@, new@, all[i as int])) by {
                    if changed_pair(old@, new@, all[i as int]) {
                        assert(pair_texts(new_table_keys@).contains(all[i as int]));
                    }
                }
            }
            i = i + 1;
        }
        proof {
            assert forall|key: Seq<char>| changed.contains(key) implies to_change@.contains(key) by {
                let (a, b) = choose|a: int, b: int|
                    0 <= a < old@.len() && 0 <= b < new@.len() && (#[trigger] old@[a]).0 == (
                    #[trigger] new@[b]).0 && derived_keys(old@[a].1, old@[a].0).contains(key)
                        && derived_keys(new@[b].1, new@[b].0).contains(key) && !old@[a].1.agrees(
                        &new@[b].1,
                    );
                assert(all.contains((old@[a].0, key)));
                let k = choose|k: int| 0 <= k < all.len() && all[k] == (old@[a].0, key);
                assert(changed_pair(old@, new@, all[k]));
            }
            assert(to_change@ =~= changed);
        }
        Difference {
            to_remove: components_missing(&old_table_keys, &new_table_keys, Ghost(old@), Ghost(new@)),
            to_change,
            to_add: components_missing(&new_table_keys, &old_table_keys, Ghost(new@), Ghost(old@)),
        }
    }

    /// Whether any component is changed or added.
    pub fn any_changed_or_added(&self) -> (any: bool)
        ensures
            any == (self@.to_change != Set::<Seq<char>>::empty() || self@.to_add
                != Set::<Seq<char>>::empty()),
    {
        !(self.to_change.is_empty() && self.to_add.is_empty())
    }

    /// Whether any component is changed or removed.
    pub fn any_changed_or_removed(&self) -> (any: bool)
        ensures
            any == (self@.to_change != Set::<Seq<char>>::empty() || self@.to_remove
                != Set::<Seq<char>>::empty()),
    {
        !(self.to_change.is_empty() && self.to_remove.is_empty())
    }

    /// Whether a component is removed, changed or added.
    pub fn contains(&self, id: &ComponentKey) -> (found: bool)
        ensures
            found == (self@.to_add.contains(id@) || self@.to_change.contains(id@)
                || self@.to_remove.contains(id@)),
    {
        self.to_add.contains(id) || self.to_change.contains(id) || self.to_remove.contains(id)
    }

    /// Whether a component is changed or added.
    pub fn contains_new(&self, id: &ComponentKey) -> (found: bool)
        ensures
            found == (self@.to_add.contains(id@) || self@.to_change.contains(id@)),
    {
        self.to_add.contains(id) || self.to_change.contains(id)
    }

    /// Whether a component is changed.
    pub fn is_changed(&self, key: &ComponentKey) -> (changed: bool)
        ensures
            changed == self@.to_change.contains(key@),
    {
        self.to_change.contains(key)
    }

    /// Whether a component is added.
    pub fn is_added(&self, id: &ComponentKey) -> (added: bool)
        ensures
            added == self@.to_add.contains(id@),
    {
        self.to_add.contains(id)
    }

    /// Whether a component is removed.
    pub fn is_removed(&self, key: &ComponentKey) -> (removed: bool)
        ensures
            removed == self@.to_remove.contains(key@),
    {
        self.to_remove.contains(key)
    }

    /// Turns the difference round: what was to be added is to be removed, and
    /// the other way round.
    pub fn flip(&mut self)
        ensures
            final(self)@ == flipped(old(self)@),
    {
        std::mem::swap(&mut self.to_remove, &mut self.to_add);
    }

    /// The changed components, and then the added ones.
    pub fn changed_and_added(&self) -> (keys: Vec<ComponentKey>)
        ensures
            listed_after(key_texts(keys@), self@.to_change, self@.to_add),
    {
        chained(&self.to_change, &self.to_add)
    }

    /// The changed components, and then the removed ones.
    pub fn removed_and_changed(&self) -> (keys: Vec<ComponentKey>)
        ensures
            listed_after(key_texts(keys@), self@.to_change, self@.to_remove),
    {
        chained(&self.to_change, &self.to_remove)
    }
}

/// The texts of pairs of keys.
pub open spec fn pair_texts(pairs: Seq<(ComponentKey, ComponentKey)>) -> Seq<(Seq<char>, Seq<char>)> {
    Seq::new(pairs.len(), |i: int| (pairs[i].0@, pairs[i].1@))
}

/// Whether `pairs` lists, for each table, the components that come with it.
pub open spec fn lists_pairs(
    pairs: Seq<(Seq<char>, Seq<char>)>,
    tables: Seq<(Seq<char>, EnrichmentTableOuter<OutputId>)>,
) -> bool {
    forall|table: Seq<char>, key: Seq<char>| #[trigger]
        pairs.contains((table, key)) <==> exists|i: int|
            0 <= i < tables.len() && (#[trigger] tables[i]).0 == table && derived_keys(
                tables[i].1,
                tables[i].0,
            ).contains(key)
}

/// Whether a component comes with a table in both maps, and the table is not
/// set up alike in both.
pub open spec fn changed_pair(
    old: Seq<(Seq<char>, EnrichmentTableOuter<OutputId>)>,
    new: Seq<(Seq<char>, EnrichmentTableOuter<OutputId>)>,
    pair: (Seq<char>, Seq<char>),
) -> bool {
    exists|i: int, j: int|
        0 <= i < old.len() && 0 <= j < new.len() && (#[trigger] old[i]).0 == pair.0 && (
        #[trigger] new[j]).0 == pair.0 && derived_keys(old[i].1, old[i].0).contains(pair.1)
            && derived_keys(new[j].1, new[j].0).contains(pair.1) && !old[i].1.agrees(&new[j].1)
}

/// No other entry has the key of an entry.
proof fn only_entry<C>(map: Seq<(Seq<char>, C)>, i: int)
    requires
        crate::component_map::distinct_keys(map),
        0 <= i < map.len(),
    ensures
        forall|j: int| 0 <= j < map.len() && (#[trigger] map[j]).0 == map[i].0 ==> j == i,
{
    assert forall|j: int| 0 <= j < map.len() && (#[trigger] map[j]).0 == map[i].0 implies j == i by {
        if i < j {
            assert(map[i].0 != map[j].0);
        }
        if j < i {
            assert(map[j].0 != map[i].0);
        }
    }
}

/// The components that come with each table, as pairs of the table and the
/// component.
fn extract_table_component_keys(tables: &ComponentMap<EnrichmentTableOuter<OutputId>>) -> (pairs: Vec<
    (ComponentKey, ComponentKey),
>)
    ensures
        lists_pairs(pair_texts(pairs@), tables@),
{
    let mut pairs: Vec<(ComponentKey, ComponentKey)> = Vec::new();
    let len: usize = tables.len();
    let mut i: usize = 0;
    while i < len
        invariant
            i <= len,
            len == tables@.len(),
            lists_pairs(pair_texts(pairs@), tables@.take(i as int)),
        decreases len - i,
    {
        let ghost before = pairs@;
        let ghost seen = tables@.take(i as int);
        let ghost all = tables@.take(i + 1);
        let table = tables.value_at(i);
        let name = ComponentKey::new(tables.key_at(i));
        if let Some(source) = &table.source {
            pairs.push((name.clone(), source.key.clone()));
        }
        if table.sink.is_some() {
            pairs.push((name.clone(), name.clone()));
        }
        proof {
            assert(all =~= seen.push(tables@[i as int]));
            let old_pairs = pair_texts(before);
            let new_pairs = pair_texts(pairs@);
            assert forall|t: Seq<char>, key: Seq<char>| #[trigger]
                new_pairs.contains((t, key)) <==> old_pairs.contains((t, key)) || (t == name@
                && derived_keys(*table, name@).contains(key)) by {
                if old_pairs.contains((t, key)) {
                    let k = choose|k: int| 0 <= k < old_pairs.len() && old_pairs[k] == (t, key);
                    assert(new_pairs[k] == (t, key));
                }
                if t == name@ && table.source is Some && table.source->0.key@ == key {
                    assert(new_pairs[before.len() as int] == (t, key));
                }
                if t == name@ && table.sink is Some && key == name@ {
                    assert(new_pairs[new_pairs.len() - 1] == (t, key));
                }
                if new_pairs.contains((t, key)) {
                    let k = choose|k: int| 0 <= k < new_pairs.len() && new_pairs[k] == (t, key);
                    if k < before.len() {
                        assert(old_pairs[k] == (t, key));
                    }
                }
            }
            assert forall|t: Seq<char>, key: Seq<char>| #[trigger]
                new_pairs.contains((t, key)) <==> exists|j: int|
                    0 <= j < all.len() && (#[trigger] all[j]).0 == t && derived_keys(
                        all[j].1,
                        all[j].0,
                    ).contains(key) by {
                if old_pairs.contains((t, key)) {
                    let j = choose|j: int|
                        0 <= j < seen.len() && (#[trigger] seen[j]).0 == t && derived_keys(
                            seen[j].1,
                            seen[j].0,
                        ).contains(key);
                    assert(all[j] == seen[j]);
                }
                if t == name@ && derived_keys(*table, name@).contains(key) {
                    assert(all[i as int].0 == t);
                }
                if exists|j: int|
                    0 <= j < all.len() && (#[trigger] all[j]).0 == t && derived_keys(
                        all[j].1,
                        all[j].0,
                    ).contains(key) {
                    let j = choose|j: int|
                        0 <= j < all.len() && (#[trigger] all[j]).0 == t && derived_keys(
                            all[j].1,
                            all[j].0,
                        ).contains(key);
                    if j < seen.len() {
                        assert(seen[j] == all[j]);
                        assert(old_pairs.contains((t, key)));
                    }
                }
            }
        }
        i = i + 1;
    }
    assert(tables@.take(i as int) =~= tables@);
    pairs
}

/// Whether a list holds a pair of keys.
fn holds_pair(
    pairs: &Vec<(ComponentKey, ComponentKey)>,
    table: &ComponentKey,
    key: &ComponentKey,
) -> (found: bool)
    ensures
        found == pair_texts(pairs@).contains((table@, key@)),
{
    let mut i: usize = 0;
    while i < pairs.len()
        invariant
            i <= pairs.len(),
            forall|j: int| 0 <= j < i ==> #[trigger] pair_texts(pairs@)[j] != (table@, key@),
        decreases pairs.len() - i,
    {
        if pairs[i].0.same(table) && pairs[i].1.same(key) {
            assert(pair_texts(pairs@)[i as int] == (table@, key@));
            return true;
        }
        i = i + 1;
    }
    false
}

/// The components of one list of pairs that another list does not have.
fn components_missing(
    from: &Vec<(ComponentKey, ComponentKey)>,
    other: &Vec<(ComponentKey, ComponentKey)>,
    Ghost(tables): Ghost<Seq<(Seq<char>, EnrichmentTableOuter<OutputId>)>>,
    Ghost(other_tables): Ghost<Seq<(Seq<char>, EnrichmentTableOuter<OutputId>)>>,
) -> (missing: KeySet)
    requires
        lists_pairs(pair_texts(from@), tables),
        lists_pairs(pair_texts(other@), other_tables),
    ensures
        missing@ == table_components(tables).difference(table_components(other_tables)),
{
    let ghost whole = table_components(tables).difference(table_components(other_tables));
    let ghost all = pair_texts(from@);
    let mut missing = KeySet::new();
    let mut i: usize = 0;
    while i < from.len()
        invariant
            i <= from.len(),
            all == pair_texts(from@),
            whole == table_components(tables).difference(table_components(other_tables)),
            lists_pairs(all, tables),
            lists_pairs(pair_texts(other@), other_tables),
            forall|key: Seq<char>| #[trigger] missing@.contains(key) ==> whole.contains(key),
            forall|k: int|
                0 <= k < i && whole.contains((#[trigger] all[k]).1) ==> missing@.contains(all[k].1),
        decreases from.len() - i,
    {
        let key = &from[i].1;
        proof {
            assert(all[i as int] == (from@[i as int].0@, key@));
            assert(all.contains(all[i as int]));
            let t = from@[i as int].0@;
            let j = choose|j: int|
                0 <= j < tables.len() && (#[trigger] tables[j]).0 == t && derived_keys(
                    tables[j].1,
                    tables[j].0,
                ).contains(key@);
            assert(table_components(tables).contains(key@));
        }
        let mut found = false;
        let mut k: usize = 0;
        while k < other.len()
            invariant
                k <= other.len(),
                found == (exists|m: int| 0 <= m < k && (#[trigger] other@[m]).1@ == key@),
            decreases other.len() - k,
        {
            if other[k].1.same(key) {
                found = true;
            }
            k = k + 1;
        }
        proof {
            assert(found == table_components(other_tables).contains(key@)) by {
                if found {
                    let m = choose|m: int| 0 <= m < other@.len() && (#[trigger] other@[m]).1@ == key@;
                    assert(pair_texts(other@)[m] == (other@[m].0@, key@));
                    assert(pair_texts(other@).contains((other@[m].0@, key@)));
                    let j = choose|j: int|
                        0 <= j < other_tables.len() && (#[trigger] other_tables[j]).0
                            == other@[m].0@ && derived_keys(
                            other_tables[j].1,
                            other_tables[j].0,
                        ).contains(key@);
                    assert(derived_keys(other_tables[j].1, other_tables[j].0).contains(key@));
                }
                if table_components(other_tables).contains(key@) {
                    let j = choose|j: int|
                        0 <= j < other_tables.len() && derived_keys(
                            (#[trigger] other_tables[j]).1,
                            other_tables[j].0,
                        ).contains(key@);
                    assert(pair_texts(other@).contains((other_tables[j].0, key@)));
                    let m = choose|m: int|
                        0 <= m < pair_texts(other@).len() && pair_texts(other@)[m] == (
                            other_tables[j].0,
                            key@,
                        );
                    assert(other@[m].1@ == key@);
                }
            }
        }
        if !found {
            missing.insert(key.clone());
        }
        i = i + 1;
    }
    proof {
        assert forall|key: Seq<char>| whole.contains(key) implies missing@.contains(key) by {
            let j = choose|j: int|
                0 <= j < tables.len() && derived_keys(
                    (#[trigger] tables[j]).1,
                    tables[j].0,
                ).contains(key);
            assert(all.contains((tables[j].0, key)));
            let k = choose|k: int| 0 <= k < all.len() && all[k] == (tables[j].0, key);
            assert(all[k].1 == key);
        }
        assert(missing@ =~= whole);
    }
    missing
}

/// A difference turned round.
pub open spec fn flipped(difference: DifferenceModel) -> DifferenceModel {
    DifferenceModel {
        to_remove: difference.to_add,
        to_change: difference.to_change,
        to_add: difference.to_remove,
    }
}

/// Whether a list holds the keys of `first`, each once, and then those of
/// `second`, each once.
pub open spec fn listed_after(
    list: Seq<Seq<char>>,
    first: Set<Seq<char>>,
    second: Set<Seq<char>>,
) -> bool {
    exists|n: int|
        0 <= n <= list.len() && (#[trigger] list.take(n)).no_duplicates() && list.take(n).to_set()
            == first && list.skip(n).no_duplicates() && list.skip(n).to_set() == second
}

/// The keys of `first`, and then those of `second`.
fn chained(first: &KeySet, second: &KeySet) -> (keys: Vec<ComponentKey>)
    ensures
        listed_after(key_texts(keys@), first@, second@),
{
    let mut keys: Vec<ComponentKey> = Vec::new();
    let a = first.keys();
    let b = second.keys();
    let mut i: usize = 0;
    while i < a.len()
        invariant
            i <= a.len(),
            keys@ == a@.take(i as int),
        decreases a.len() - i,
    {
        keys.push(a[i].clone());
        assert(keys@ =~= a@.take(i + 1));
        i = i + 1;
    }
    assert(keys@ =~= a@);
    let mut j: usize = 0;
    while j < b.len()
        invariant
            j <= b.len(),
            keys@ == a@ + b@.take(j as int),
        decreases b.len() - j,
    {
        keys.push(b[j].clone());
        assert(keys@ =~= a@ + b@.take(j + 1));
        j = j + 1;
    }
    proof {
        let n = a@.len() as int;
        assert(b@.take(j as int) =~= b@);
        assert(key_texts(keys@).take(n) =~= key_texts(a@));
        assert(key_texts(keys@).skip(n) =~= key_texts(b@));
    }
    keys
}

/// What changes between two configurations.
#[derive(Debug)]
pub struct ConfigDiff {
    /// What changes of the sources.
    pub sources: Difference,
    /// What changes of the transforms.
    pub transforms: Difference,
    /// What changes of the sinks.
    pub sinks: Difference,
    /// What changes of the components that come with enrichment tables.
    pub enrichment_tables: Difference,
    /// The components that are to be restarted in any case.
    pub components_to_reload: KeySet,
}

impl ConfigDiff {
    /// What changes from nothing to a first configuration.
    pub fn initial(initial: &Config) -> (diff: Self)
        ensures
            diff.sources@ == (DifferenceModel {
                to_remove: Set::empty(),
                to_change: Set::empty(),
                to_add: names(initial.sources@),
            }),
            diff.transforms@ == (DifferenceModel {
                to_remove: Set::empty(),
                to_change: Set::empty(),
                to_add: names(initial.transforms@),
            }),
            diff.sinks@ == (DifferenceModel {
                to_remove: Set::empty(),
                to_change: Set::empty(),
                to_add: names(initial.sinks@),
            }),
            diff.enrichment_tables@ == (DifferenceModel {
                to_remove: Set::empty(),
                to_change: Set::empty(),
                to_add: table_components(initial.enrichment_tables@),
            }),
            diff.components_to_reload@ == Set::<Seq<char>>::empty(),
    {
        let nothing = Config::default();
        let diff = ConfigDiff::new(&nothing, initial, KeySet::new());
        proof {
            from_nothing(nothing.sources@, initial.sources@);
            from_nothing(nothing.transforms@, initial.transforms@);
            from_nothing(nothing.sinks@, initial.sinks@);
            let old = nothing.enrichment_tables@;
            let new = initial.enrichment_tables@;
            assert(table_components(old) =~= Set::<Seq<char>>::empty());
            assert(changed_table_components(old, new) =~= Set::<Seq<char>>::empty());
            assert(table_difference(old, new).to_add =~= table_components(new));
            assert(table_difference(old, new).to_remove =~= Set::<Seq<char>>::empty());
        }
        diff
    }

    /// What changes from one configuration to another, where the given
    /// components count as changed in any case.
    pub fn new(old: &Config, new: &Config, components_to_reload: KeySet) -> (diff: Self)
        ensures
            diff.sources@ == difference(old.sources@, new.sources@, components_to_reload@),
            diff.transforms@ == difference(old.transforms@, new.transforms@, components_to_reload@),
            diff.sinks@ == difference(old.sinks@, new.sinks@, components_to_reload@),
            diff.enrichment_tables@ == table_difference(
                old.enrichment_tables@,
                new.enrichment_tables@,
            ),
            diff.components_to_reload@ == components_to_reload@,
    {
        ConfigDiff {
            sources: Difference::new(&old.sources, &new.sources, &components_to_reload),
            transforms: Difference::new(&old.transforms, &new.transforms, &components_to_reload),
            sinks: Difference::new(&old.sinks, &new.sinks, &components_to_reload),
            enrichment_tables: Difference::from_enrichment_tables(
                &old.enrichment_tables,
                &new.enrichment_tables,
            ),
            components_to_reload,
        }
    }

    /// Turns the difference round: what was to be added is to be removed, and
    /// the other way round.
    pub fn flip(self) -> (diff: Self)
        ensures
            diff.sources@ == flipped(self.sources@),
            diff.transforms@ == flipped(self.transforms@),
            diff.sinks@ == flipped(self.sinks@),
            diff.enrichment_tables@ == flipped(self.enrichment_tables@),
            diff.components_to_reload == self.components_to_reload,
    {
        let mut diff = self;
        diff.sources.flip();
        diff.transforms.flip();
        diff.sinks.flip();
        diff.enrichment_tables.flip();
        diff
    }

    /// Whether a component is removed, changed or added.
    pub fn contains(&self, key: &ComponentKey) -> (found: bool)
        ensures
            found == (touches(self.sources@, key@) || touches(self.transforms@, key@) || touches(
                self.sinks@,
                key@,
            ) || touches(self.enrichment_tables@, key@)),
    {
        self.sources.contains(key) || self.transforms.contains(key) || self.sinks.contains(key)
            || self.enrichment_tables.contains(key)
    }

    /// Whether a component is changed: one that is only added or only removed
    /// is not.
    pub fn is_changed(&self, key: &ComponentKey) -> (changed: bool)
        ensures
            changed == (self.sources@.to_change.contains(key@)
                || self.transforms@.to_change.contains(key@) || self.sinks@.to_change.contains(key@)
                || self.enrichment_tables@.to_change.contains(key@)),
    {
        self.sources.is_changed(key) || self.transforms.is_changed(key) || self.sinks.is_changed(key)
            || self.enrichment_tables.is_changed(key)
    }

    /// Whether a component is removed: one that is only changed or only added
    /// is not.
    pub fn is_removed(&self, key: &ComponentKey) -> (removed: bool)
        ensures
            removed == (self.sources@.to_remove.contains(key@)
                || self.transforms@.to_remove.contains(key@) || self.sinks@.to_remove.contains(key@)
                || self.enrichment_tables@.to_remove.contains(key@)),
    {
        self.sources.is_removed(key) || self.transforms.is_removed(key) || self.sinks.is_removed(key)
            || self.enrichment_tables.is_removed(key)
    }
}

/// Whether a component is removed, changed or added.
pub open spec fn touches(difference: DifferenceModel, key: Seq<char>) -> bool {
    difference.to_add.contains(key) || difference.to_change.contains(key)
        || difference.to_remove.contains(key)
}

/// From nothing, everything is added.
proof fn from_nothing<C: Settings>(old: Seq<(Seq<char>, C)>, new: Seq<(Seq<char>, C)>)
    requires
        old.len() == 0,
    ensures
        difference(old, new, Set::empty()) == (DifferenceModel {
            to_remove: Set::empty(),
            to_change: Set::empty(),
            to_add: names(new),
        }),
{
    let made = difference(old, new, Set::empty());
    assert(names(old) =~= Set::<Seq<char>>::empty());
    assert(differing(old, new) =~= Set::<Seq<char>>::empty());
    assert(made.to_remove =~= Set::<Seq<char>>::empty());
    assert(made.to_change =~= Set::<Seq<char>>::empty());
    assert(made.to_add =~= names(new));
}

/// Turning a difference round twice gives it back.
pub proof fn flipping_twice_undoes(difference: DifferenceModel)
    ensures
        flipped(flipped(difference)) == difference,
{
}

/// No component is in two of the three sets, and together they hold only
/// components of one of the configurations.
pub proof fn removed_changed_added_differ<C: Settings>(
    old: Seq<(Seq<char>, C)>,
    new: Seq<(Seq<char>, C)>,
    need_change: Set<Seq<char>>,
)
    ensures
        ({
            let made = difference(old, new, need_change);
            &&& made.to_remove.disjoint(made.to_change)
            &&& made.to_remove.disjoint(made.to_add)
            &&& made.to_change.disjoint(made.to_add)
            &&& made.to_change.subset_of(names(old).intersect(names(new)))
            &&& made.to_remove.union(made.to_change).union(made.to_add).subset_of(
                names(old).union(names(new)),
            )
        }),
{
    assert forall|key: Seq<char>| differing(old, new).contains(key) implies names(old).contains(key)
        && names(new).contains(key) by {
        let (i, j) = choose|i: int, j: int|
            0 <= i < old.len() && 0 <= j < new.len() && (#[trigger] old[i]).0 == key && (
            #[trigger] new[j]).0 == key && !old[i].1.agrees(&new[j].1);
        assert(old[i].0 == key);
        assert(new[j].0 == key);
    }
}

/// What changes on the way from one map of components to another changes on the
/// way back, what is removed is added, and the other way round.
pub proof fn way_back_is_flipped<C: Settings>(
    old: Seq<(Seq<char>, C)>,
    new: Seq<(Seq<char>, C)>,
    need_change: Set<Seq<char>>,
)
    ensures
        difference(new, old, need_change) == flipped(difference(old, new, need_change)),
{
    assert forall|key: Seq<char>| differing(old, new).contains(key) == differing(new, old).contains(
        key,
    ) by {
        if differing(old, new).contains(key) {
            let (i, j) = choose|i: int, j: int|
                0 <= i < old.len() && 0 <= j < new.len() && (#[trigger] old[i]).0 == key && (
                #[trigger] new[j]).0 == key && !old[i].1.agrees(&new[j].1);
            old[i].1.agrees_both_ways(&new[j].1);
            assert(new[j].0 == key && old[i].0 == key);
        }
        if differing(new, old).contains(key) {
            let (j, i) = choose|j: int, i: int|
                0 <= j < new.len() && 0 <= i < old.len() && (#[trigger] new[j]).0 == key && (
                #[trigger] old[i]).0 == key && !new[j].1.agrees(&old[i].1);
            old[i].1.agrees_both_ways(&new[j].1);
            assert(old[i].0 == key && new[j].0 == key);
        }
    }
    let back = difference(new, old, need_change);
    let there = difference(old, new, need_change);
    assert(differing(old, new) =~= differing(new, old));
    assert(back.to_change =~= there.to_change);
    assert(back.to_remove =~= there.to_add);
    assert(back.to_add =~= there.to_remove);
}

/// The same holds of the components that come with tables.
pub proof fn way_back_of_tables_is_flipped(
    old: Seq<(Seq<char>, EnrichmentTableOuter<OutputId>)>,
    new: Seq<(Seq<char>, EnrichmentTableOuter<OutputId>)>,
)
    ensures
        table_difference(new, old) == flipped(table_difference(old, new)),
{
    assert forall|key: Seq<char>|
        changed_table_components(old, new).contains(key) == changed_table_components(
            new,
            old,
        ).contains(key) by {
        if changed_table_components(old, new).contains(key) {
            let (i, j) = choose|i: int, j: int|
                0 <= i < old.len() && 0 <= j < new.len() && (#[trigger] old[i]).0 == (
                #[trigger] new[j]).0 && derived_keys(old[i].1, old[i].0).contains(key)
                    && derived_keys(new[j].1, new[j].0).contains(key) && !old[i].1.agrees(&new[j].1);
            old[i].1.agrees_both_ways(&new[j].1);
            assert(new[j].0 == old[i].0);
        }
        if changed_table_components(new, old).contains(key) {
            let (j, i) = choose|j: int, i: int|
                0 <= j < new.len() && 0 <= i < old.len() && (#[trigger] new[j]).0 == (
                #[trigger] old[i]).0 && derived_keys(new[j].1, new[j].0).contains(key)
                    && derived_keys(old[i].1, old[i].0).contains(key) && !new[j].1.agrees(&old[i].1);
            old[i].1.agrees_both_ways(&new[j].1);
            assert(old[i].0 == new[j].0);
        }
    }
    let back = table_difference(new, old);
    let there = table_difference(old, new);
    assert(back.to_change =~= there.to_change);
    assert(back.to_remove =~= there.to_add);
    assert(back.to_add =~= there.to_remove);
}

/// Turning round what changes from one configuration to another gives what
/// changes on the way back.
pub proof fn way_back_of_a_configuration(old: &Config, new: &Config, reload: Set<Seq<char>>)
    ensures
        flipped(difference(old.sources@, new.sources@, reload)) == difference(
            new.sources@,
            old.sources@,
            reload,
        ),
        flipped(difference(old.transforms@, new.transforms@, reload)) == difference(
            new.transforms@,
            old.transforms@,
            reload,
        ),
        flipped(difference(old.sinks@, new.sinks@, reload)) == difference(
            new.sinks@,
            old.sinks@,
            reload,
        ),
        flipped(table_difference(old.enrichment_tables@, new.enrichment_tables@))
            == table_difference(new.enrichment_tables@, old.enrichment_tables@),
{
    way_back_is_flipped(old.sources@, new.sources@, reload);
    way_back_is_flipped(old.transforms@, new.transforms@, reload);
    way_back_is_flipped(old.sinks@, new.sinks@, reload);
    way_back_of_tables_is_flipped(old.enrichment_tables@, new.enrichment_tables@);
}

/// No change at all.
pub open spec fn nothing_changes() -> DifferenceModel {
    DifferenceModel { to_remove: Set::empty(), to_change: Set::empty(), to_add: Set::empty() }
}

/// A map of components does not differ from itself, unless something is to be
/// restarted in any case.
pub proof fn components_do_not_differ_from_themselves<C: Settings>(map: Seq<(Seq<char>, C)>)
    requires
        crate::component_map::distinct_keys(map),
    ensures
        difference(map, map, Set::empty()) == nothing_changes(),
{
    assert forall|i: int, j: int|
        0 <= i < map.len() && 0 <= j < map.len() && (#[trigger] map[i]).0 == (#[trigger] map[j]).0
            implies map[i].1.agrees(&map[j].1) by {
        only_entry(map, i);
        map[i].1.agrees_with_itself();
    }
    alike_configurations_do_not_differ(map, map);
}

/// A configuration does not differ from itself, unless something is to be
/// restarted in any case.
pub proof fn configuration_does_not_differ_from_itself(config: &Config)
    requires
        crate::component_map::distinct_keys(config.sources@),
        crate::component_map::distinct_keys(config.transforms@),
        crate::component_map::distinct_keys(config.sinks@),
        crate::component_map::distinct_keys(config.enrichment_tables@),
    ensures
        difference(config.sources@, config.sources@, Set::empty()) == nothing_changes(),
        difference(config.transforms@, config.transforms@, Set::empty()) == nothing_changes(),
        difference(config.sinks@, config.sinks@, Set::empty()) == nothing_changes(),
        table_difference(config.enrichment_tables@, config.enrichment_tables@) == nothing_changes(),
{
    components_do_not_differ_from_themselves(config.sources@);
    components_do_not_differ_from_themselves(config.transforms@);
    components_do_not_differ_from_themselves(config.sinks@);
    let tables = config.enrichment_tables@;
    assert forall|key: Seq<char>| !changed_table_components(tables, tables).contains(key) by {
        if changed_table_components(tables, tables).contains(key) {
            let (i, j) = choose|i: int, j: int|
                0 <= i < tables.len() && 0 <= j < tables.len() && (#[trigger] tables[i]).0 == (
                #[trigger] tables[j]).0 && derived_keys(tables[i].1, tables[i].0).contains(key)
                    && derived_keys(tables[j].1, tables[j].0).contains(key) && !tables[i].1.agrees(
                    &tables[j].1,
                );
            only_entry(tables, i);
            tables[i].1.agrees_with_itself();
        }
    }
    let made = table_difference(tables, tables);
    assert(made.to_change =~= Set::<Seq<char>>::empty());
    assert(made.to_remove =~= Set::<Seq<char>>::empty());
    assert(made.to_add =~= Set::<Seq<char>>::empty());
}

/// Where two configurations have the same components, all set up alike, and
/// nothing is to be restarted in any case, nothing changes.
pub proof fn alike_configurations_do_not_differ<C: Settings>(
    old: Seq<(Seq<char>, C)>,
    new: Seq<(Seq<char>, C)>,
)
    requires
        names(old) == names(new),
        forall|i: int, j: int|
            0 <= i < old.len() && 0 <= j < new.len() && (#[trigger] old[i]).0 == (#[trigger] new[j]).0
                ==> old[i].1.agrees(&new[j].1),
    ensures
        difference(old, new, Set::empty()) == nothing_changes(),
{
    let made = difference(old, new, Set::empty());
    assert(differing(old, new) =~= Set::<Seq<char>>::empty());
    assert(made.to_remove =~= Set::<Seq<char>>::empty());
    assert(made.to_change =~= Set::<Seq<char>>::empty());
    assert(made.to_add =~= Set::<Seq<char>>::empty());
}

/// Two lists name the same outputs just where they are as long as one another
/// and have, place by place, the same component and the same port.
proof fn output_lists_are_same(a: Seq<OutputId>, b: Seq<OutputId>)
    ensures
        output_names(a) == output_names(b) <==> a.len() == b.len() && forall|k: int|
            0 <= k < a.len() ==> (#[trigger] a[k]).component@ == b[k].component@ && (a[k].port is Some)
                == (b[k].port is Some) && (a[k].port is Some ==> a[k].port->0@ == b[k].port->0@),
{
    if output_names(a) == output_names(b) {
        assert(output_names(a).len() == output_names(b).len());
        assert forall|k: int| 0 <= k < a.len() implies (#[trigger] a[k]).component@
            == b[k].component@ && (a[k].port is Some) == (b[k].port is Some) && (a[k].port is Some
            ==> a[k].port->0@ == b[k].port->0@) by {
            assert(output_names(a)[k] == output_names(b)[k]);
        }
    }
    if a.len() == b.len() && forall|k: int|
        0 <= k < a.len() ==> (#[trigger] a[k]).component@ == b[k].component@ && (a[k].port is Some)
            == (b[k].port is Some) && (a[k].port is Some ==> a[k].port->0@ == b[k].port->0@) {
        assert forall|k: int| 0 <= k < a.len() implies #[trigger] output_names(a)[k] == output_names(
            b,
        )[k] by {
            assert(a[k].component@ == b[k].component@);
        }
        assert(output_names(a) =~= output_names(b));
    }
}

/// A source that both configurations have is restarted just where it is to be in
/// any case, or where its type, its own settings, its proxy or its place in
/// drawings is set otherwise.
pub proof fn sources_restart_when_set_up_anew(
    old: &Config,
    new: &Config,
    reload: KeySet,
    diff: ConfigDiff,
    i: int,
    j: int,
)
    requires
        call_ensures(ConfigDiff::new, (old, new, reload), diff),
        crate::component_map::distinct_keys(old.sources@),
        crate::component_map::distinct_keys(new.sources@),
        0 <= i < old.sources@.len(),
        0 <= j < new.sources@.len(),
        old.sources@[i].0 == new.sources@[j].0,
    ensures
        diff.sources.to_change@.contains(old.sources@[i].0) <==> ({
            let was = old.sources@[i].1;
            let now = new.sources@[j].1;
            ||| reload@.contains(old.sources@[i].0)
            ||| was.proxy.enabled != now.proxy.enabled
            ||| (was.proxy.http is Some) != (now.proxy.http is Some)
            ||| was.proxy.http is Some && was.proxy.http->0@ != now.proxy.http->0@
            ||| (was.proxy.https is Some) != (now.proxy.https is Some)
            ||| was.proxy.https is Some && was.proxy.https->0@ != now.proxy.https->0@
            ||| json_value(was.graph@) != json_value(now.graph@)
            ||| json_value(was.graph@) is None && was.graph@ != now.graph@
            ||| was.inner.component_type@ != now.inner.component_type@
            ||| json_value(was.inner.settings@) != json_value(now.inner.settings@)
            ||| json_value(was.inner.settings@) is None && was.inner.settings@ != now.inner.settings@
        }),
{
    only_entry(old.sources@, i);
    only_entry(new.sources@, j);
}

/// A transform that both configurations have is restarted just where it is to be
/// in any case, or where its inputs, its type, its own settings or its place in
/// drawings is set otherwise.
pub proof fn transforms_restart_when_set_up_anew(
    old: &Config,
    new: &Config,
    reload: KeySet,
    diff: ConfigDiff,
    i: int,
    j: int,
)
    requires
        call_ensures(ConfigDiff::new, (old, new, reload), diff),
        crate::component_map::distinct_keys(old.transforms@),
        crate::component_map::distinct_keys(new.transforms@),
        0 <= i < old.transforms@.len(),
        0 <= j < new.transforms@.len(),
        old.transforms@[i].0 == new.transforms@[j].0,
    ensures
        diff.transforms.to_change@.contains(old.transforms@[i].0) <==> ({
            let was = old.transforms@[i].1;
            let now = new.transforms@[j].1;
            ||| reload@.contains(old.transforms@[i].0)
            ||| was.inputs@.len() != now.inputs@.len()
            ||| exists|k: int|
                0 <= k < was.inputs@.len() && {
                    ||| (#[trigger] was.inputs@[k]).component@ != now.inputs@[k].component@
                    ||| (was.inputs@[k].port is Some) != (now.inputs@[k].port is Some)
                    ||| was.inputs@[k].port is Some && was.inputs@[k].port->0@
                        != now.inputs@[k].port->0@
                }
            ||| json_value(was.graph@) != json_value(now.graph@)
            ||| json_value(was.graph@) is None && was.graph@ != now.graph@
            ||| was.inner.component_type@ != now.inner.component_type@
            ||| json_value(was.inner.settings@) != json_value(now.inner.settings@)
            ||| json_value(was.inner.settings@) is None && was.inner.settings@ != now.inner.settings@
        }),
{
    only_entry(old.transforms@, i);
    only_entry(new.transforms@, j);
    output_lists_are_same(old.transforms@[i].1.inputs@, new.transforms@[j].1.inputs@);
}

/// A sink that both configurations have is restarted just where it is to be in
/// any case, or where its inputs, its type, its own settings, its health check,
/// its buffer, its proxy or its place in drawings is set otherwise.
pub proof fn sinks_restart_when_set_up_anew(
    old: &Config,
    new: &Config,
    reload: KeySet,
    diff: ConfigDiff,
    i: int,
    j: int,
)
    requires
        call_ensures(ConfigDiff::new, (old, new, reload), diff),
        crate::component_map::distinct_keys(old.sinks@),
        crate::component_map::distinct_keys(new.sinks@),
        0 <= i < old.sinks@.len(),
        0 <= j < new.sinks@.len(),
        old.sinks@[i].0 == new.sinks@[j].0,
    ensures
        diff.sinks.to_change@.contains(old.sinks@[i].0) <==> ({
            let was = old.sinks@[i].1;
            let now = new.sinks@[j].1;
            ||| reload@.contains(old.sinks@[i].0)
            ||| was.inputs@.len() != now.inputs@.len()
            ||| exists|k: int|
                0 <= k < was.inputs@.len() && {
                    ||| (#[trigger] was.inputs@[k]).component@ != now.inputs@[k].component@
                    ||| (was.inputs@[k].port is Some) != (now.inputs@[k].port is Some)
                    ||| was.inputs@[k].port is Some && was.inputs@[k].port->0@
                        != now.inputs@[k].port->0@
                }
            ||| (was.healthcheck_uri is Some) != (now.healthcheck_uri is Some)
            ||| was.healthcheck_uri is Some && was.healthcheck_uri->0@ != now.healthcheck_uri->0@
            ||| was.healthcheck.enabled != now.healthcheck.enabled
            ||| was.healthcheck.timeout.secs != now.healthcheck.timeout.secs
            ||| was.healthcheck.timeout.nanos != now.healthcheck.timeout.nanos
            ||| (was.healthcheck.uri is Some) != (now.healthcheck.uri is Some)
            ||| was.healthcheck.uri is Some && was.healthcheck.uri->0@ != now.healthcheck.uri->0@
            ||| was.buffer.stages@ != now.buffer.stages@
            ||| was.proxy.enabled != now.proxy.enabled
            ||| (was.proxy.http is Some) != (now.proxy.http is Some)
            ||| was.proxy.http is Some && was.proxy.http->0@ != now.proxy.http->0@
            ||| (was.proxy.https is Some) != (now.proxy.https is Some)
            ||| was.proxy.https is Some && was.proxy.https->0@ != now.proxy.https->0@
            ||| json_value(was.graph@) != json_value(now.graph@)
            ||| json_value(was.graph@) is None && was.graph@ != now.graph@
            ||| was.inner.component_type@ != now.inner.component_type@
            ||| json_value(was.inner.settings@) != json_value(now.inner.settings@)
            ||| json_value(was.inner.settings@) is None && was.inner.settings@ != now.inner.settings@
        }),
{
    only_entry(old.sinks@, i);
    only_entry(new.sinks@, j);
    output_lists_are_same(old.sinks@[i].1.inputs@, new.sinks@[j].1.inputs@);
}

/// A source that only the old configuration has is stopped, one that only the
/// new one has is started, and only one that both have is ever restarted.
pub proof fn sources_stop_and_start_by_name(
    old: &Config,
    new: &Config,
    reload: KeySet,
    diff: ConfigDiff,
    name: Seq<char>,
)
    requires
        call_ensures(ConfigDiff::new, (old, new, reload), diff),
    ensures
        ({
            let before = exists|i: int|
                0 <= i < old.sources@.len() && (#[trigger] old.sources@[i]).0 == name;
            let after = exists|j: int|
                0 <= j < new.sources@.len() && (#[trigger] new.sources@[j]).0 == name;
            &&& diff.sources.to_remove@.contains(name) <==> before && !after
            &&& diff.sources.to_add@.contains(name) <==> after && !before
            &&& diff.sources.to_change@.contains(name) ==> before && after
        }),
{
    removed_changed_added_differ(old.sources@, new.sources@, reload@);
    assert(names(old.sources@).contains(name) == exists|i: int|
        0 <= i < old.sources@.len() && (#[trigger] old.sources@[i]).0 == name);
    assert(names(new.sources@).contains(name) == exists|j: int|
        0 <= j < new.sources@.len() && (#[trigger] new.sources@[j]).0 == name);
}

/// A transform that only the old configuration has is stopped, one that only the
/// new one has is started, and only one that both have is ever restarted.
pub proof fn transforms_stop_and_start_by_name(
    old: &Config,
    new: &Config,
    reload: KeySet,
    diff: ConfigDiff,
    name: Seq<char>,
)
    requires
        call_ensures(ConfigDiff::new, (old, new, reload), diff),
    ensures
        ({
            let before = exists|i: int|
                0 <= i < old.transforms@.len() && (#[trigger] old.transforms@[i]).0 == name;
            let after = exists|j: int|
                0 <= j < new.transforms@.len() && (#[trigger] new.transforms@[j]).0 == name;
            &&& diff.transforms.to_remove@.contains(name) <==> before && !after
            &&& diff.transforms.to_add@.contains(name) <==> after && !before
            &&& diff.transforms.to_change@.contains(name) ==> before && after
        }),
{
    removed_changed_added_differ(old.transforms@, new.transforms@, reload@);
    assert(names(old.transforms@).contains(name) == exists|i: int|
        0 <= i < old.transforms@.len() && (#[trigger] old.transforms@[i]).0 == name);
    assert(names(new.transforms@).contains(name) == exists|j: int|
        0 <= j < new.transforms@.len() && (#[trigger] new.transforms@[j]).0 == name);
}

/// A sink that only the old configuration has is stopped, one that only the
/// new one has is started, and only one that both have is ever restarted.
pub proof fn sinks_stop_and_start_by_name(
    old: &Config,
    new: &Config,
    reload: KeySet,
    diff: ConfigDiff,
    name: Seq<char>,
)
    requires
        call_ensures(ConfigDiff::new, (old, new, reload), diff),
    ensures
        ({
            let before = exists|i: int|
                0 <= i < old.sinks@.len() && (#[trigger] old.sinks@[i]).0 == name;
            let after = exists|j: int|
                0 <= j < new.sinks@.len() && (#[trigger] new.sinks@[j]).0 == name;
            &&& diff.sinks.to_remove@.contains(name) <==> before && !after
            &&& diff.sinks.to_add@.contains(name) <==> after && !before
            &&& diff.sinks.to_change@.contains(name) ==> before && after
        }),
{
    removed_changed_added_differ(old.sinks@, new.sinks@, reload@);
    assert(names(old.sinks@).contains(name) == exists|i: int|
        0 <= i < old.sinks@.len() && (#[trigger] old.sinks@[i]).0 == name);
    assert(names(new.sinks@).contains(name) == exists|j: int|
        0 <= j < new.sinks@.len() && (#[trigger] new.sinks@[j]).0 == name);
}

/// A component that comes with a table is stopped just where it comes with a
/// table of the old configuration and with none of the new one, and started the
/// other way round.
pub proof fn table_components_stop_and_start_by_name(
    old: &Config,
    new: &Config,
    reload: KeySet,
    diff: ConfigDiff,
    name: Seq<char>,
)
    requires
        call_ensures(ConfigDiff::new, (old, new, reload), diff),
    ensures
        ({
            let was = old.enrichment_tables@;
            let now = new.enrichment_tables@;
            let before = exists|i: int|
                0 <= i < was.len() && ({
                    ||| (#[trigger] was[i]).1.source is Some && was[i].1.source->0.key@ == name
                    ||| was[i].1.sink is Some && was[i].0 == name
                });
            let after = exists|j: int|
                0 <= j < now.len() && ({
                    ||| (#[trigger] now[j]).1.source is Some && now[j].1.source->0.key@ == name
                    ||| now[j].1.sink is Some && now[j].0 == name
                });
            &&& diff.enrichment_tables.to_remove@.contains(name) <==> before && !after
            &&& diff.enrichment_tables.to_add@.contains(name) <==> after && !before
        }),
{
    let was = old.enrichment_tables@;
    let now = new.enrichment_tables@;
    assert forall|i: int| 0 <= i < was.len() implies derived_keys(#[trigger] was[i].1, was[i].0).contains(
        name,
    ) == ((was[i].1.source is Some && was[i].1.source->0.key@ == name) || (was[i].1.sink is Some
        && was[i].0 == name)) by {}
    assert forall|j: int| 0 <= j < now.len() implies derived_keys(#[trigger] now[j].1, now[j].0).contains(
        name,
    ) == ((now[j].1.source is Some && now[j].1.source->0.key@ == name) || (now[j].1.sink is Some
        && now[j].0 == name)) by {}
    assert(table_components(was).contains(name) == exists|i: int|
        0 <= i < was.len() && derived_keys((#[trigger] was[i]).1, was[i].0).contains(name));
    assert(table_components(now).contains(name) == exists|j: int|
        0 <= j < now.len() && derived_keys((#[trigger] now[j]).1, now[j].0).contains(name));
}

/// A component that comes with a table of both configurations is restarted where
/// the inputs of the table, its own settings or its place in drawings is set
/// otherwise, and, where it comes with no other table, only there.
pub proof fn table_components_restart_when_set_up_anew(
    old: &Config,
    new: &Config,
    reload: KeySet,
    diff: ConfigDiff,
    name: Seq<char>,
    i: int,
    j: int,
)
    requires
        call_ensures(ConfigDiff::new, (old, new, reload), diff),
        crate::component_map::distinct_keys(old.enrichment_tables@),
        crate::component_map::distinct_keys(new.enrichment_tables@),
        0 <= i < old.enrichment_tables@.len(),
        0 <= j < new.enrichment_tables@.len(),
        old.enrichment_tables@[i].0 == new.enrichment_tables@[j].0,
        ({
            let was = old.enrichment_tables@[i];
            let now = new.enrichment_tables@[j];
            &&& (was.1.source is Some && was.1.source->0.key@ == name) || (was.1.sink is Some
                && was.0 == name)
            &&& (now.1.source is Some && now.1.source->0.key@ == name) || (now.1.sink is Some
                && now.0 == name)
        }),
    ensures
        ({
            let was = old.enrichment_tables@[i].1;
            let now = new.enrichment_tables@[j].1;
            let anew = {
                ||| was.inputs@.len() != now.inputs@.len()
                ||| exists|k: int|
                    0 <= k < was.inputs@.len() && {
                        ||| (#[trigger] was.inputs@[k]).component@ != now.inputs@[k].component@
                        ||| (was.inputs@[k].port is Some) != (now.inputs@[k].port is Some)
                        ||| was.inputs@[k].port is Some && was.inputs@[k].port->0@
                            != now.inputs@[k].port->0@
                    }
                ||| json_value(was.graph@) != json_value(now.graph@)
                ||| json_value(was.graph@) is None && was.graph@ != now.graph@
                ||| json_value(was.settings@) != json_value(now.settings@)
                ||| json_value(was.settings@) is None && was.settings@ != now.settings@
            };
            let elsewhere = exists|k: int|
                0 <= k < old.enrichment_tables@.len() && k != i && ({
                    ||| (#[trigger] old.enrichment_tables@[k]).1.source is Some
                        && old.enrichment_tables@[k].1.source->0.key@ == name
                    ||| old.enrichment_tables@[k].1.sink is Some && old.enrichment_tables@[k].0
                        == name
                });
            &&& anew ==> diff.enrichment_tables.to_change@.contains(name)
            &&& !elsewhere ==> (diff.enrichment_tables.to_change@.contains(name) <==> anew)
        }),
{
    let was = old.enrichment_tables@;
    let now = new.enrichment_tables@;
    only_entry(was, i);
    only_entry(now, j);
    output_lists_are_same(was[i].1.inputs@, now[j].1.inputs@);
    assert(derived_keys(was[i].1, was[i].0).contains(name));
    assert(derived_keys(now[j].1, now[j].0).contains(name));
    if !was[i].1.agrees(&now[j].1) {
        assert(changed_table_components(was, now).contains(name));
    }
    if changed_table_components(was, now).contains(name) {
        let (a, b) = choose|a: int, b: int|
            0 <= a < was.len() && 0 <= b < now.len() && (#[trigger] was[a]).0 == (#[trigger] now[b]).0
                && derived_keys(was[a].1, was[a].0).contains(name) && derived_keys(
                now[b].1,
                now[b].0,
            ).contains(name) && !was[a].1.agrees(&now[b].1);
        if a == i {
            assert(now[b].0 == now[j].0);
            assert(b == j);
        }
    }
}

/// Turned round, a difference has the same components to restart, and those to
/// stop and to start change places.
pub proof fn turned_round_stops_what_was_to_start(diff: ConfigDiff, turned: ConfigDiff)
    requires
        call_ensures(ConfigDiff::flip, (diff,), turned),
    ensures
        turned.sources.to_remove@ == diff.sources.to_add@,
        turned.sources.to_change@ == diff.sources.to_change@,
        turned.sources.to_add@ == diff.sources.to_remove@,
        turned.transforms.to_remove@ == diff.transforms.to_add@,
        turned.transforms.to_change@ == diff.transforms.to_change@,
        turned.transforms.to_add@ == diff.transforms.to_remove@,
        turned.sinks.to_remove@ == diff.sinks.to_add@,
        turned.sinks.to_change@ == diff.sinks.to_change@,
        turned.sinks.to_add@ == diff.sinks.to_remove@,
        turned.enrichment_tables.to_remove@ == diff.enrichment_tables.to_add@,
        turned.enrichment_tables.to_change@ == diff.enrichment_tables.to_change@,
        turned.enrichment_tables.to_add@ == diff.enrichment_tables.to_remove@,
        turned.components_to_reload@ == diff.components_to_reload@,
{
}

/// A component is among the changes where one of its kind stops, restarts or
/// starts.
pub proof fn changes_are_found_in_every_kind(
    diff: &ConfigDiff,
    key: &ComponentKey,
    found: bool,
    changed: bool,
    removed: bool,
)
    requires
        call_ensures(ConfigDiff::contains, (diff, key), found),
        call_ensures(ConfigDiff::is_changed, (diff, key), changed),
        call_ensures(ConfigDiff::is_removed, (diff, key), removed),
    ensures
        changed <==> {
            ||| diff.sources.to_change@.contains(key@)
            ||| diff.transforms.to_change@.contains(key@)
            ||| diff.sinks.to_change@.contains(key@)
            ||| diff.enrichment_tables.to_change@.contains(key@)
        },
        removed <==> {
            ||| diff.sources.to_remove@.contains(key@)
            ||| diff.transforms.to_remove@.contains(key@)
            ||| diff.sinks.to_remove@.contains(key@)
            ||| diff.enrichment_tables.to_remove@.contains(key@)
        },
        found <==> {
            ||| changed
            ||| removed
            ||| diff.sources.to_add@.contains(key@)
            ||| diff.transforms.to_add@.contains(key@)
            ||| diff.sinks.to_add@.contains(key@)
            ||| diff.enrichment_tables.to_add@.contains(key@)
        },
{
}

/// Among components of one kind, one is found where it stops, restarts or
/// starts, and new where it does one of the latter two.
pub proof fn changes_are_found_in_one_kind(
    difference: &Difference,
    key: &ComponentKey,
    found: bool,
    new: bool,
    changed: bool,
    added: bool,
    removed: bool,
)
    requires
        call_ensures(Difference::contains, (difference, key), found),
        call_ensures(Difference::contains_new, (difference, key), new),
        call_ensures(Difference::is_changed, (difference, key), changed),
        call_ensures(Difference::is_added, (difference, key), added),
        call_ensures(Difference::is_removed, (difference, key), removed),
    ensures
        changed <==> difference.to_change@.contains(key@),
        added <==> difference.to_add@.contains(key@),
        removed <==> difference.to_remove@.contains(key@),
        new <==> changed || added,
        found <==> changed || added || removed,
{
}

/// Something restarts or starts, or restarts or stops, where some component does.
pub proof fn any_change_is_noticed(
    difference: &Difference,
    key: Seq<char>,
    starts: bool,
    stops: bool,
)
    requires
        call_ensures(Difference::any_changed_or_added, (difference,), starts),
        call_ensures(Difference::any_changed_or_removed, (difference,), stops),
    ensures
        difference.to_change@.contains(key) ==> starts && stops,
        difference.to_add@.contains(key) ==> starts,
        difference.to_remove@.contains(key) ==> stops,
        starts ==> exists|other: Seq<char>|
            #![trigger difference.to_change@.contains(other)]
            difference.to_change@.contains(other) || difference.to_add@.contains(other),
        stops ==> exists|other: Seq<char>|
            #![trigger difference.to_change@.contains(other)]
            difference.to_change@.contains(other) || difference.to_remove@.contains(other),
{
    let changed = difference.to_change@;
    let added = difference.to_add@;
    let removed = difference.to_remove@;
    if starts {
        if forall|other: Seq<char>| !changed.contains(other) && !added.contains(other) {
            assert(changed =~= Set::<Seq<char>>::empty());
            assert(added =~= Set::<Seq<char>>::empty());
        }
        let other = choose|other: Seq<char>| changed.contains(other) || added.contains(other);
        assert(changed.contains(other) || added.contains(other));
    }
    if stops {
        if forall|other: Seq<char>| !changed.contains(other) && !removed.contains(other) {
            assert(changed =~= Set::<Seq<char>>::empty());
            assert(removed =~= Set::<Seq<char>>::empty());
        }
        let other = choose|other: Seq<char>| changed.contains(other) || removed.contains(other);
        assert(changed.contains(other) || removed.contains(other));
    }
}

/// Turned round, what was to stop starts and what was to start stops.
pub proof fn turned_round_starts_what_was_to_stop(difference: &mut Difference)
    requires
        call_ensures(Difference::flip, (difference,), ()),
    ensures
        final(difference).to_add@ == old(difference).to_remove@,
        final(difference).to_remove@ == old(difference).to_add@,
        final(difference).to_change@ == old(difference).to_change@,
{
    assert(final(difference)@.to_add == old(difference)@.to_remove);
    assert(final(difference)@.to_remove == old(difference)@.to_add);
    assert(final(difference)@.to_change == old(difference)@.to_change);
}

/// From nothing, all components of a configuration start, and none stops or
/// restarts.
pub proof fn at_first_everything_starts(initial: &Config, diff: ConfigDiff, key: Seq<char>)
    requires
        call_ensures(ConfigDiff::initial, (initial,), diff),
    ensures
        diff.sources.to_add@.contains(key) <==> exists|i: int|
            0 <= i < initial.sources@.len() && (#[trigger] initial.sources@[i]).0 == key,
        diff.transforms.to_add@.contains(key) <==> exists|i: int|
            0 <= i < initial.transforms@.len() && (#[trigger] initial.transforms@[i]).0 == key,
        diff.sinks.to_add@.contains(key) <==> exists|i: int|
            0 <= i < initial.sinks@.len() && (#[trigger] initial.sinks@[i]).0 == key,
        !diff.sources.to_change@.contains(key) && !diff.sources.to_remove@.contains(key),
        !diff.transforms.to_change@.contains(key) && !diff.transforms.to_remove@.contains(key),
        !diff.sinks.to_change@.contains(key) && !diff.sinks.to_remove@.contains(key),
        !diff.enrichment_tables.to_change@.contains(key)
            && !diff.enrichment_tables.to_remove@.contains(key),
{
    assert(diff.sources@.to_add == names(initial.sources@));
    assert(diff.transforms@.to_add == names(initial.transforms@));
    assert(diff.sinks@.to_add == names(initial.sinks@));
    assert(diff.sources@.to_change == Set::<Seq<char>>::empty());
    assert(diff.sources@.to_remove == Set::<Seq<char>>::empty());
    assert(diff.transforms@.to_change == Set::<Seq<char>>::empty());
    assert(diff.transforms@.to_remove == Set::<Seq<char>>::empty());
    assert(diff.sinks@.to_change == Set::<Seq<char>>::empty());
    assert(diff.sinks@.to_remove == Set::<Seq<char>>::empty());
    assert(diff.enrichment_tables@.to_change == Set::<Seq<char>>::empty());
    assert(diff.enrichment_tables@.to_remove == Set::<Seq<char>>::empty());
}

/// Whether each key of a list is in one of two sets, those of the first set
/// before those of the second, and whether all keys of both are in the list.
pub open spec fn lists_one_after_the_other(
    keys: Seq<ComponentKey>,
    first: Set<Seq<char>>,
    second: Set<Seq<char>>,
    middle: int,
) -> bool {
    &&& 0 <= middle <= keys.len()
    &&& forall|i: int| 0 <= i < middle ==> first.contains((#[trigger] keys[i])@)
    &&& forall|i: int| middle <= i < keys.len() ==> second.contains((#[trigger] keys[i])@)
    &&& forall|key: Seq<char>| #[trigger]
        first.contains(key) ==> exists|i: int| 0 <= i < middle && (#[trigger] keys[i])@ == key
    &&& forall|key: Seq<char>| #[trigger]
        second.contains(key) ==> exists|i: int|
            middle <= i < keys.len() && (#[trigger] keys[i])@ == key
}

/// A list that holds the keys of two sets holds them one set after the other.
proof fn listed_one_after_the_other(
    keys: Seq<ComponentKey>,
    first: Set<Seq<char>>,
    second: Set<Seq<char>>,
)
    requires
        listed_after(key_texts(keys), first, second),
    ensures
        exists|middle: int| #[trigger] lists_one_after_the_other(keys, first, second, middle),
{
    let list = key_texts(keys);
    let n = choose|n: int|
        0 <= n <= list.len() && (#[trigger] list.take(n)).no_duplicates() && list.take(n).to_set()
            == first && list.skip(n).no_duplicates() && list.skip(n).to_set() == second;
    let front = list.take(n);
    let back = list.skip(n);
    assert forall|i: int| 0 <= i < n implies first.contains((#[trigger] keys[i])@) by {
        assert(front[i] == keys[i]@);
        assert(front.to_set().contains(front[i]));
    }
    assert forall|i: int| n <= i < keys.len() implies second.contains((#[trigger] keys[i])@) by {
        assert(back[i - n] == keys[i]@);
        assert(back.to_set().contains(back[i - n]));
    }
    assert forall|key: Seq<char>| #[trigger] first.contains(key) implies exists|i: int|
        0 <= i < n && (#[trigger] keys[i])@ == key by {
        assert(front.contains(key));
        let i = choose|i: int| 0 <= i < front.len() && front[i] == key;
        assert(keys[i]@ == key);
    }
    assert forall|key: Seq<char>| #[trigger] second.contains(key) implies exists|i: int|
        n <= i < keys.len() && (#[trigger] keys[i])@ == key by {
        assert(back.contains(key));
        let i = choose|i: int| 0 <= i < back.len() && back[i] == key;
        assert(keys[i + n]@ == key);
    }
    assert(lists_one_after_the_other(keys, first, second, n));
}

/// What restarts is listed before what starts, and before what stops, and
/// nothing else is listed.
pub proof fn what_restarts_is_listed_first(
    difference: &Difference,
    starting: Vec<ComponentKey>,
    stopping: Vec<ComponentKey>,
)
    requires
        call_ensures(Difference::changed_and_added, (difference,), starting),
        call_ensures(Difference::removed_and_changed, (difference,), stopping),
    ensures
        exists|middle: int| #[trigger]
            lists_one_after_the_other(
                starting@,
                difference.to_change@,
                difference.to_add@,
                middle,
            ),
        exists|middle: int| #[trigger]
            lists_one_after_the_other(
                stopping@,
                difference.to_change@,
                difference.to_remove@,
                middle,
            ),
{
    listed_one_after_the_other(starting@, difference.to_change@, difference.to_add@);
    listed_one_after_the_other(stopping@, difference.to_change@, difference.to_remove@);
}

} // verus!
