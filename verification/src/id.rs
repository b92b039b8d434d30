//! Names of components and of their outputs.
use vstd::prelude::*;

verus! {

/// The name of a component, unique among the components of a topology.
#[derive(Debug, PartialEq, Eq, Hash)]
pub struct ComponentKey {
    id: String,
}

impl View for ComponentKey {
    type V = Seq<char>;

    closed spec fn view(&self) -> Seq<char> {
        self.id@
    }
}

impl Clone for ComponentKey {
    fn clone(&self) -> (key: Self)
        ensures
            key == *self,
            key@ == self@,
    {
        ComponentKey { id: self.id.clone() }
    }
}

impl ComponentKey {
    /// The key with the given text.
    pub fn new(id: &str) -> (key: Self)
        ensures
            key@ == id@,
    {
        ComponentKey { id: id.to_owned() }
    }

    /// The text of the key.
    pub fn id(&self) -> (id: &str)
        ensures
            id@ == self@,
    {
        self.id.as_str()
    }

    /// Whether two keys have the same text.
    pub fn same(&self, other: &ComponentKey) -> (same: bool)
        ensures
            same == (self@ == other@),
    {
        self.id == other.id
    }
}

/// A set of keys.
#[derive(Debug)]
pub struct KeySet {
    keys: Vec<ComponentKey>,
}

/// The texts of a list of keys.
pub open spec fn key_texts(keys: Seq<ComponentKey>) -> Seq<Seq<char>> {
    Seq::new(keys.len(), |i: int| keys[i]@)
}

impl View for KeySet {
    type V = Set<Seq<char>>;

    closed spec fn view(&self) -> Set<Seq<char>> {
        key_texts(self.keys@).to_set()
    }
}

impl KeySet {
    #[verifier::type_invariant]
    spec fn once_each(self) -> bool {
        key_texts(self.keys@).no_duplicates()
    }

    /// The set without keys.
    pub fn new() -> (set: Self)
        ensures
            set@ == Set::<Seq<char>>::empty(),
    {
        let set = KeySet { keys: Vec::new() };
        assert(set@ =~= Set::<Seq<char>>::empty());
        set
    }

    /// Whether the set holds a key.
    pub fn contains(&self, key: &ComponentKey) -> (found: bool)
        ensures
            found == self@.contains(key@),
    {
        let mut i: usize = 0;
        while i < self.keys.len()
            invariant
                i <= self.keys.len(),
                forall|j: int| 0 <= j < i ==> (#[trigger] self.keys@[j])@ != key@,
            decreases self.keys.len() - i,
        {
            if self.keys[i].same(key) {
                assert(key_texts(self.keys@)[i as int] == key@);
                return true;
            }
            i = i + 1;
        }
        assert(!key_texts(self.keys@).contains(key@)) by {
            if key_texts(self.keys@).contains(key@) {
                let j = choose|j: int|
                    0 <= j < key_texts(self.keys@).len() && key_texts(self.keys@)[j] == key@;
                assert(self.keys@[j]@ == key@);
            }
        }
        false
    }

    /// Adds a key.
    pub fn insert(&mut self, key: ComponentKey)
        ensures
            final(self)@ == old(self)@.insert(key@),
    {
        let ghost before = key_texts(self.keys@);
        if !self.contains(&key) {
            proof {
                use_type_invariant(&*self);
            }
            let mut keys: Vec<ComponentKey> = Vec::new();
            std::mem::swap(&mut keys, &mut self.keys);
            keys.push(key);
            proof {
                let after = key_texts(keys@);
                assert(after =~= before.push(key@));
                assert(!before.contains(key@));
                assert forall|i: int, j: int|
                    0 <= i < after.len() && 0 <= j < after.len() && i != j implies after[i] != after[j] by {
                    if i < before.len() && j < before.len() {
                        assert(before[i] != before[j]);
                    } else if i < before.len() {
                        assert(before.contains(before[i]));
                    } else {
                        assert(before.contains(before[j]));
                    }
                }
                assert(after.to_set() =~= before.to_set().insert(key@)) by {
                    assert forall|k: Seq<char>| after.contains(k) <==> before.contains(k) || k == key@ by {
                        if before.contains(k) {
                            let i = choose|i: int| 0 <= i < before.len() && before[i] == k;
                            assert(after[i] == k);
                        }
                        assert(after[before.len() as int] == key@);
                        if after.contains(k) {
                            let i = choose|i: int| 0 <= i < after.len() && after[i] == k;
                            if i < before.len() {
                                assert(before[i] == k);
                            }
                        }
                    }
                }
            }
            self.keys = keys;
        } else {
            assert(old(self)@ =~= old(self)@.insert(key@));
        }
    }

    /// Whether the set holds no key.
    pub fn is_empty(&self) -> (empty: bool)
        ensures
            empty == (self@ == Set::<Seq<char>>::empty()),
    {
        if self.keys.len() == 0 {
            assert(self@ =~= Set::<Seq<char>>::empty());
            true
        } else {
            assert(key_texts(self.keys@)[0] == self.keys@[0]@);
            assert(self@.contains(self.keys@[0]@));
            false
        }
    }

    /// The keys of the set, each once, in some order.
    pub fn keys(&self) -> (keys: &Vec<ComponentKey>)
        ensures
            key_texts(keys@).no_duplicates(),
            key_texts(keys@).to_set() == self@,
    {
        proof {
            use_type_invariant(self);
        }
        &self.keys
    }
}

impl Clone for KeySet {
    fn clone(&self) -> (copy: Self)
        ensures
            copy@ == self@,
    {
        proof {
            use_type_invariant(self);
        }
        let mut keys: Vec<ComponentKey> = Vec::new();
        let mut i: usize = 0;
        while i < self.keys.len()
            invariant
                i <= self.keys.len(),
                keys@ == self.keys@.take(i as int),
            decreases self.keys.len() - i,
        {
            keys.push(self.keys[i].clone());
            assert(keys@ =~= self.keys@.take(i + 1));
            i = i + 1;
        }
        assert(keys@ =~= self.keys@);
        KeySet { keys }
    }
}

/// What identifies an output: its component, and its port where it has a name.
pub type OutputName = (Seq<char>, Option<Seq<char>>);

/// The text of an output: the component alone, or `component.port`.
pub open spec fn output_text(name: OutputName) -> Seq<char> {
    match name.1 {
        None => name.0,
        Some(port) => name.0 + "."@ + port,
    }
}

/// The text of a port, where there is one.
pub open spec fn port_text(port: Option<String>) -> Option<Seq<char>> {
    match port {
        None => None,
        Some(name) => Some(name@),
    }
}

/// One output of a component.
///
/// Most components have one output without a name. A component such as the
/// `route` transform has a named output for each of its ports.
#[derive(Debug, PartialEq, Eq, Hash)]
pub struct OutputId {
    /// The component that the output belongs to.
    pub component: ComponentKey,
    /// The name of the output; `None` is the default output.
    pub port: Option<String>,
}

impl View for OutputId {
    type V = OutputName;

    open spec fn view(&self) -> OutputName {
        (self.component@, port_text(self.port))
    }
}

impl Clone for OutputId {
    fn clone(&self) -> (id: Self)
        ensures
            id == *self,
            id@ == self@,
    {
        OutputId { component: self.component.clone(), port: clone_port(&self.port) }
    }
}

/// A copy of an optional name.
pub fn clone_port(port: &Option<String>) -> (copy: Option<String>)
    ensures
        copy == *port,
{
    match port {
        None => None,
        Some(name) => Some(name.clone()),
    }
}

/// Whether two optional names have the same text.
pub fn same_port(a: &Option<String>, b: &Option<String>) -> (same: bool)
    ensures
        same == (port_text(*a) == port_text(*b)),
{
    match (a, b) {
        (None, None) => true,
        (Some(x), Some(y)) => *x == *y,
        _ => false,
    }
}

impl OutputId {
    /// The output of `component` with the given port.
    pub fn new(component: &ComponentKey, port: &Option<String>) -> (id: Self)
        ensures
            id@ == (component@, port_text(*port)),
            id.port == *port,
    {
        OutputId { component: component.clone(), port: clone_port(port) }
    }

    /// Whether two identifiers denote the same output.
    pub fn same(&self, other: &OutputId) -> (same: bool)
        ensures
            same == (self@ == other@),
    {
        self.component.same(&other.component) && same_port(&self.port, &other.port)
    }

    /// The text by which other components name this output in their inputs.
    pub fn to_text(&self) -> (text: String)
        ensures
            text@ == output_text(self@),
    {
        let mut text = self.component.id().to_owned();
        if let Some(port) = &self.port {
            text.append(".");
            text.append(port.as_str());
        }
        text
    }
}

/// The names of a list of outputs.
pub open spec fn output_names(ids: Seq<OutputId>) -> Seq<OutputName> {
    Seq::new(ids.len(), |i: int| ids[i]@)
}

/// Whether `ids` holds an output with the same component and port as `id`.
pub fn holds_output(ids: &Vec<OutputId>, id: &OutputId) -> (found: bool)
    ensures
        found == output_names(ids@).contains(id@),
{
    let mut i: usize = 0;
    while i < ids.len()
        invariant
            i <= ids.len(),
            forall|j: int| 0 <= j < i ==> ids@[j]@ != id@,
        decreases ids.len() - i,
    {
        if ids[i].same(id) {
            assert(output_names(ids@)[i as int] == id@);
            return true;
        }
        i = i + 1;
    }
    false
}

/// An output is named by its component alone, or by its component and its port
/// with a dot between them.
pub proof fn outputs_are_named_with_a_dot(id: &OutputId, text: String)
    requires
        call_ensures(OutputId::to_text, (id,), text),
    ensures
        id.port is None ==> text@ == id.component@,
        id.port is Some ==> text@ == id.component@ + seq!['.'] + id.port->0@,
{
    reveal_strlit(".");
    assert("."@ =~= seq!['.']);
}

/// Two identifiers denote one output where the components and the ports have the
/// same texts.
pub proof fn outputs_are_compared_by_text(a: &OutputId, b: &OutputId, same: bool)
    requires
        call_ensures(OutputId::same, (a, b), same),
    ensures
        same <==> {
            &&& a.component@ == b.component@
            &&& a.port is Some <==> b.port is Some
            &&& a.port is Some ==> a.port->0@ == b.port->0@
        },
{
}

/// An output is in a list where one in it has the same component and the same
/// port.
pub proof fn outputs_are_found_by_text(ids: &Vec<OutputId>, id: &OutputId, found: bool)
    requires
        call_ensures(holds_output, (ids, id), found),
    ensures
        found <==> exists|i: int|
            0 <= i < ids@.len() && (#[trigger] ids@[i]).component@ == id.component@ && match (
                ids@[i].port,
                id.port,
            ) {
                (Some(port), Some(other)) => port@ == other@,
                (None, None) => true,
                _ => false,
            },
{
    let names = output_names(ids@);
    if names.contains(id@) {
        let i = choose|i: int| 0 <= i < names.len() && names[i] == id@;
        assert(ids@[i]@ == id@);
        assert(ids@[i].component@ == id.component@);
    }
    if exists|i: int|
        0 <= i < ids@.len() && (#[trigger] ids@[i]).component@ == id.component@ && match (
            ids@[i].port,
            id.port,
        ) {
            (Some(port), Some(other)) => port@ == other@,
            (None, None) => true,
            _ => false,
        } {
        let i = choose|i: int|
            0 <= i < ids@.len() && (#[trigger] ids@[i]).component@ == id.component@ && match (
                ids@[i].port,
                id.port,
            ) {
                (Some(port), Some(other)) => port@ == other@,
                (None, None) => true,
                _ => false,
            };
        assert(names[i] == id@);
    }
}

/// A new set holds no key, and one that a key was added to holds it and what it
/// held before.
pub proof fn sets_hold_what_was_added(
    set: &mut KeySet,
    key: ComponentKey,
    other: &ComponentKey,
    before: bool,
    after: bool,
    fresh: KeySet,
    found: bool,
)
    requires
        call_ensures(KeySet::contains, (&*old(set), other), before),
        call_ensures(KeySet::insert, (set, key), ()),
        call_ensures(KeySet::contains, (&*final(set), other), after),
        call_ensures(KeySet::new, (), fresh),
        call_ensures(KeySet::contains, (&fresh, other), found),
    ensures
        after <==> before || other@ == key@,
        !found,
{
}

} // verus!
