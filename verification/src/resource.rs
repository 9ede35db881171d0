use vstd::prelude::*;

verus! {

/// The property/value pairs of one resource, in the order they were first set.
pub type ResourceView = Seq<(Seq<char>, Seq<char>)>;

/// No property occurs twice.
pub open spec fn keys_unique(rv: ResourceView) -> bool {
    forall|i: int, j: int|
        0 <= i < rv.len() && 0 <= j < rv.len() && i != j ==> #[trigger] rv[i].0 != #[trigger] rv[j].0
}

/// The resource sets `key`.
pub open spec fn has_key(rv: ResourceView, key: Seq<char>) -> bool {
    exists|i: int| 0 <= i < rv.len() && #[trigger] rv[i].0 == key
}

/// A position at which `key` is set.
pub open spec fn key_index(rv: ResourceView, key: Seq<char>) -> int {
    choose|i: int| 0 <= i < rv.len() && #[trigger] rv[i].0 == key
}

/// The value that the resource gives `key`, if any.
pub open spec fn lookup(rv: ResourceView, key: Seq<char>) -> Option<Seq<char>> {
    if has_key(rv, key) {
        Some(rv[key_index(rv, key)].1)
    } else {
        None
    }
}

/// The resource after setting `key` to `value`: an existing pair is
/// overwritten in place, a new one is appended.
pub open spec fn rv_insert(rv: ResourceView, key: Seq<char>, value: Seq<char>) -> ResourceView {
    if has_key(rv, key) {
        rv.update(key_index(rv, key), (key, value))
    } else {
        rv.push((key, value))
    }
}

/// In a resource without repeated properties, the pair at `i` is what a lookup of its key finds.
pub proof fn lemma_lookup_at(rv: ResourceView, i: int)
    requires
        keys_unique(rv),
        0 <= i < rv.len(),
    ensures
        has_key(rv, rv[i].0),
        key_index(rv, rv[i].0) == i,
        lookup(rv, rv[i].0) == Some(rv[i].1),
{
    assert(has_key(rv, rv[i].0));
    let k = key_index(rv, rv[i].0);
    if k != i {
        assert(rv[k].0 != rv[i].0);
    }
}

/// Setting a property keeps the properties distinct.
pub proof fn lemma_insert_unique(rv: ResourceView, key: Seq<char>, value: Seq<char>)
    requires
        keys_unique(rv),
    ensures
        keys_unique(rv_insert(rv, key, value)),
{
    let r = rv_insert(rv, key, value);
    if has_key(rv, key) {
        let k = key_index(rv, key);
        assert forall|i: int, j: int|
            0 <= i < r.len() && 0 <= j < r.len() && i != j implies #[trigger] r[i].0 != #[trigger] r[j].0 by {
            if i == k {
                assert(rv[k].0 == key);
            } else if j == k {
                assert(rv[k].0 == key);
            }
        }
    } else {
        assert forall|i: int, j: int|
            0 <= i < r.len() && 0 <= j < r.len() && i != j implies #[trigger] r[i].0 != #[trigger] r[j].0 by {
            if i == rv.len() {
                assert(rv[j].0 != key);
            } else if j == rv.len() {
                assert(rv[i].0 != key);
            }
        }
    }
}

/// A lookup right after setting a property finds the value just set; other
/// properties keep their values.
pub proof fn lemma_lookup_insert(rv: ResourceView, key: Seq<char>, value: Seq<char>, other: Seq<char>)
    requires
        keys_unique(rv),
    ensures
        lookup(rv_insert(rv, key, value), key) == Some(value),
        other != key ==> lookup(rv_insert(rv, key, value), other) == lookup(rv, other),
{
    lemma_insert_unique(rv, key, value);
    let r = rv_insert(rv, key, value);
    let n: int = if has_key(rv, key) { key_index(rv, key) } else { rv.len() as int };
    assert(r[n].0 == key);
    lemma_lookup_at(r, n);
    if other != key {
        if has_key(rv, other) {
            let m = key_index(rv, other);
            assert(r[m].0 == other);
            lemma_lookup_at(r, m);
            lemma_lookup_at(rv, m);
        } else {
            if has_key(r, other) {
                let m = key_index(r, other);
                assert(rv[m].0 == other);
            }
        }
    }
}

/// The properties and values of one resource, each property at most once.
#[derive(Debug, PartialEq, Eq)]
pub struct ResourceString {
    entries: Vec<(String, String)>,
}

impl View for ResourceString {
    type V = ResourceView;

    closed spec fn view(&self) -> ResourceView {
        self.entries@.map_values(|e: (String, String)| (e.0@, e.1@))
    }
}

impl ResourceString {
    /// No property of a resource occurs twice.
    #[verifier::type_invariant]
    pub open spec fn properties_distinct(self) -> bool {
        keys_unique(self@)
    }

    /// A resource without properties.
    pub fn new() -> (r: Self)
        ensures
            r@ == Seq::<(Seq<char>, Seq<char>)>::empty(),
    {
        let r = ResourceString { entries: Vec::new() };
        assert(r@ =~= Seq::<(Seq<char>, Seq<char>)>::empty());
        r
    }

    /// The number of properties.
    pub fn len(&self) -> (n: usize)
        ensures
            n == self@.len(),
    {
        self.entries.len()
    }

    /// Whether the resource has no properties.
    pub fn is_empty(&self) -> (b: bool)
        ensures
            b == (self@.len() == 0),
    {
        self.entries.len() == 0
    }

    /// The property and value at position `i`.
    pub fn entry(&self, i: usize) -> (r: (&String, &String))
        requires
            i < self@.len(),
        ensures
            r.0@ == self@[i as int].0,
            r.1@ == self@[i as int].1,
    {
        let e = &self.entries[i];
        (&e.0, &e.1)
    }

    /// The value of `property`, if the resource sets it.
    pub fn get(&self, property: &str) -> (r: Option<&String>)
        ensures
            match r {
                Some(v) => lookup(self@, property@) == Some(v@),
                None => lookup(self@, property@) is None,
            },
    {
        proof {
            use_type_invariant(self);
        }
        let key = property.to_owned();
        let n = self.entries.len();
        let mut i: usize = 0;
        while i < n
            invariant
                n == self@.len(),
                i <= n,
                key@ == property@,
                keys_unique(self@),
                forall|j: int| 0 <= j < i ==> self@[j].0 != property@,
            decreases n - i,
        {
            let e = &self.entries[i];
            if e.0 == key {
                proof {
                    lemma_lookup_at(self@, i as int);
                }
                return Some(&e.1);
            }
            i = i + 1;
        }
        None
    }

    /// A copy of this resource.
    pub fn duplicate(&self) -> (r: Self)
        ensures
            r@ == self@,
    {
        proof {
            use_type_invariant(self);
        }
        let n = self.entries.len();
        let mut entries: Vec<(String, String)> = Vec::new();
        let mut i: usize = 0;
        while i < n
            invariant
                n == self@.len(),
                i <= n,
                entries@.map_values(|e: (String, String)| (e.0@, e.1@)) =~= self@.take(i as int),
            decreases n - i,
        {
            let e = &self.entries[i];
            let ghost before = entries@.map_values(|e: (String, String)| (e.0@, e.1@));
            let k = e.0.clone();
            let v = e.1.clone();
            entries.push((k, v));
            assert(self@[i as int] == (k@, v@));
            assert(self@.take(i + 1) =~= self@.take(i as int).push(self@[i as int]));
            assert(entries@.map_values(|e: (String, String)| (e.0@, e.1@)) =~= before.push((k@, v@)));
            i = i + 1;
        }
        assert(self@.take(n as int) =~= self@);
        ResourceString { entries }
    }

    /// Sets `property` to `value`, in place where the property is already
    /// set, at the end where it is not. Returns the value it replaced.
    pub fn insert(&mut self, property: String, value: String) -> (replaced: Option<String>)
        ensures
            final(self)@ == rv_insert(old(self)@, property@, value@),
            match replaced {
                Some(v) => lookup(old(self)@, property@) == Some(v@),
                None => lookup(old(self)@, property@) is None,
            },
    {
        proof {
            use_type_invariant(&*self);
        }
        let n = self.entries.len();
        let mut i: usize = 0;
        while i < n
            invariant
                n == self@.len(),
                i <= n,
                self@ == old(self)@,
                keys_unique(self@),
                forall|j: int| 0 <= j < i ==> self@[j].0 != property@,
            decreases n - i,
        {
            if self.entries[i].0 == property {
                proof {
                    lemma_lookup_at(self@, i as int);
                    lemma_insert_unique(self@, property@, value@);
                }
                let ghost before = self@;
                let mut entries: Vec<(String, String)> = Vec::new();
                std::mem::swap(&mut entries, &mut self.entries);
                let (k, old_value) = entries.remove(i);
                entries.insert(i, (k, value));
                assert(entries@.map_values(|e: (String, String)| (e.0@, e.1@)) =~= rv_insert(before, property@, value@));
                self.entries = entries;
                return Some(old_value);
            }
            i = i + 1;
        }
        proof {
            lemma_insert_unique(self@, property@, value@);
        }
        let ghost before = self@;
        let mut entries: Vec<(String, String)> = Vec::new();
        std::mem::swap(&mut entries, &mut self.entries);
        entries.push((property, value));
        assert(entries@.map_values(|e: (String, String)| (e.0@, e.1@)) =~= rv_insert(before, property@, value@));
        self.entries = entries;
        None
    }
}

/// The atoms that a resource states about `subject`, in the resource's order.
pub open spec fn rv_atoms(subject: Seq<char>, rv: ResourceView) -> Seq<(Seq<char>, Seq<char>, Seq<char>)> {
    rv.map_values(|e: (Seq<char>, Seq<char>)| (subject, e.0, e.1))
}

/// The atoms that `resource` states about `subject`.
pub fn resource_to_atoms(subject: &str, resource: &ResourceString) -> (atoms: Vec<crate::atom::Atom>)
    ensures
        crate::atom::atoms_view(atoms@) == rv_atoms(subject@, resource@),
{
    let n = resource.len();
    let mut atoms: Vec<crate::atom::Atom> = Vec::new();
    let mut i: usize = 0;
    while i < n
        invariant
            n == resource@.len(),
            i <= n,
            crate::atom::atoms_view(atoms@) =~= rv_atoms(subject@, resource@.take(i as int)),
        decreases n - i,
    {
        let (p, v) = resource.entry(i);
        let ghost before = crate::atom::atoms_view(atoms@);
        let a = crate::atom::Atom::new(subject.to_owned(), p.clone(), v.clone());
        atoms.push(a);
        assert(resource@.take(i + 1) =~= resource@.take(i as int).push(resource@[i as int]));
        assert(crate::atom::atoms_view(atoms@) =~= before.push(a@));
        i = i + 1;
    }
    assert(resource@.take(n as int) =~= resource@);
    atoms
}

} // verus!
