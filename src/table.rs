use vstd::prelude::*;

verus! {

/// Slot numbers of named entries, held in a hashbrown map. The map sits in a
/// struct of its own because its allocator bound, from allocator-api2, cannot
/// be named here to declare the map type itself.
#[verifier::external_body]
pub struct NameIndex {
    map: hashbrown::HashMap<String, usize>,
}

/// What a `NameIndex` holds: each name with its slot number.
pub uninterp spec fn slots_of(index: NameIndex) -> Map<Seq<char>, usize>;

impl NameIndex {
    /// Relies on hashbrown::HashMap::new: a new map holds nothing.
    #[verifier::external_body]
    fn new() -> (r: NameIndex)
        ensures
            slots_of(r).dom() =~= Set::empty(),
    {
        NameIndex { map: hashbrown::HashMap::new() }
    }

    /// Relies on hashbrown::HashMap::get: the value stored under an equal key, if any.
    #[verifier::external_body]
    fn lookup(&self, name: &String) -> (r: Option<usize>)
        ensures
            r == (if slots_of(*self).contains_key(name@) {
                Some(slots_of(*self)[name@])
            } else {
                None
            }),
    {
        self.map.get(name).copied()
    }

    /// Relies on hashbrown::HashMap::insert: afterwards the key maps to the value,
    /// and every other key keeps its value.
    #[verifier::external_body]
    fn store(&mut self, name: String, slot: usize)
        ensures
            slots_of(*final(self)) == slots_of(*old(self)).insert(name@, slot),
    {
        self.map.insert(name, slot);
    }
}

/// A map from names to values, keyed by the characters of the name.
pub struct Table<V> {
    index: NameIndex,
    values: Vec<V>,
    names: Ghost<Seq<Seq<char>>>,
}

impl<V> Table<V> {
    /// Each slot of the index is in range and was filed under its own name.
    pub closed spec fn wf(&self) -> bool {
        &&& self.names@.len() == self.values@.len()
        &&& forall|k: Seq<char>| #[trigger]
            slots_of(self.index).contains_key(k) ==> {
                &&& slots_of(self.index)[k] < self.values@.len()
                &&& self.names@[slots_of(self.index)[k] as int] == k
            }
    }

    /// The names that the table holds.
    pub closed spec fn dom(&self) -> Set<Seq<char>> {
        slots_of(self.index).dom()
    }

    /// The value held under a name.
    pub closed spec fn at(&self, k: Seq<char>) -> V {
        self.values@[slots_of(self.index)[k] as int]
    }

    pub fn new() -> (r: Table<V>)
        ensures
            r.wf(),
            r.dom() == Set::<Seq<char>>::empty(),
    {
        Table { index: NameIndex::new(), values: Vec::new(), names: Ghost(Seq::empty()) }
    }

    /// The value held under `name`, if any.
    pub fn get(&self, name: &String) -> (r: Option<&V>)
        requires
            self.wf(),
        ensures
            r == (if self.dom().contains(name@) {
                Some(&self.at(name@))
            } else {
                None
            }),
    {
        match self.index.lookup(name) {
            Some(slot) => Some(&self.values[slot]),
            None => None,
        }
    }

    /// Files `value` under `name`, replacing what was there.
    pub fn insert(&mut self, name: String, value: V)
        requires
            old(self).wf(),
        ensures
            final(self).wf(),
            final(self).dom() == old(self).dom().insert(name@),
            final(self).at(name@) == value,
            forall|k: Seq<char>|
                k != name@ && #[trigger] old(self).dom().contains(k) ==> final(self).at(k)
                    == old(self).at(k),
    {
        match self.index.lookup(&name) {
            Some(slot) => {
                self.values.set(slot, value);
                assert(slots_of(self.index).insert(name@, slot) =~= slots_of(self.index));
            },
            None => {
                let slot = self.values.len();
                let ghost k = name@;
                self.index.store(name, slot);
                self.values.push(value);
                self.names = Ghost(self.names@.push(k));
            },
        }
    }
}

} // verus!
