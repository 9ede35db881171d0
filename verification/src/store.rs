//! An in-memory store.
use vstd::prelude::*;
use crate::atom::{Atom, atoms_view};
use crate::errors::{AtomicError, AtomicResult, ErrorView};
use crate::resource::{ResourceString, ResourceView, rv_insert};
use crate::storelike::{
    AcceptFn, FetchFn, Storelike, StoreView, apply_atoms, collection_view, is_listing, store_set,
};
use crate::text::str_eq;

verus! {

/// The subjects of `c` are distinct.
pub open spec fn subjects_unique(c: Seq<(Seq<char>, ResourceView)>) -> bool {
    forall|i: int, j: int| 0 <= i < c.len() && 0 <= j < c.len() && i != j ==> #[trigger] c[i].0 != #[trigger] c[j].0
}

/// The store that a list of subjects with their resources describes.
pub open spec fn listing_map(c: Seq<(Seq<char>, ResourceView)>) -> StoreView {
    Map::new(
        |k: Seq<char>| exists|i: int| 0 <= i < c.len() && #[trigger] c[i].0 == k,
        |k: Seq<char>| c[choose|i: int| 0 <= i < c.len() && #[trigger] c[i].0 == k].1,
    )
}

proof fn lemma_listing_at(c: Seq<(Seq<char>, ResourceView)>, i: int)
    requires
        subjects_unique(c),
        0 <= i < c.len(),
    ensures
        listing_map(c).contains_key(c[i].0),
        listing_map(c)[c[i].0] == c[i].1,
{
    assert(c[i].0 == c[i].0);
    let j = choose|j: int| 0 <= j < c.len() && #[trigger] c[j].0 == c[i].0;
    if j != i {
        assert(c[j].0 != c[i].0);
    }
}

proof fn lemma_listing_is_listing(c: Seq<(Seq<char>, ResourceView)>)
    requires
        subjects_unique(c),
    ensures
        is_listing(c, listing_map(c)),
{
    assert forall|i: int| 0 <= i < c.len() implies #[trigger] listing_map(c).contains_key(c[i].0)
        && listing_map(c)[c[i].0] == c[i].1 by {
        lemma_listing_at(c, i);
    }
}

proof fn lemma_listing_update(c: Seq<(Seq<char>, ResourceView)>, i: int, rv: ResourceView)
    requires
        subjects_unique(c),
        0 <= i < c.len(),
    ensures
        subjects_unique(c.update(i, (c[i].0, rv))),
        listing_map(c.update(i, (c[i].0, rv))) == listing_map(c).insert(c[i].0, rv),
{
    let d = c.update(i, (c[i].0, rv));
    assert forall|a: int, b: int| 0 <= a < d.len() && 0 <= b < d.len() && a != b implies #[trigger] d[a].0 != #[trigger] d[b].0 by {
        assert(d[a].0 == c[a].0 && d[b].0 == c[b].0);
    }
    let m = listing_map(c).insert(c[i].0, rv);
    assert forall|k: Seq<char>| #[trigger] listing_map(d).contains_key(k) <==> m.contains_key(k) by {
        if listing_map(d).contains_key(k) {
            let j = choose|j: int| 0 <= j < d.len() && #[trigger] d[j].0 == k;
            assert(c[j].0 == k);
        }
        if listing_map(c).contains_key(k) {
            let j = choose|j: int| 0 <= j < c.len() && #[trigger] c[j].0 == k;
            assert(d[j].0 == k);
        }
        if k == c[i].0 {
            assert(d[i].0 == k);
        }
    }
    assert forall|k: Seq<char>| #[trigger] listing_map(d).contains_key(k) implies listing_map(d)[k] == m[k] by {
        let j = choose|j: int| 0 <= j < d.len() && #[trigger] d[j].0 == k;
        lemma_listing_at(d, j);
        if j != i {
            lemma_listing_at(c, j);
        }
    }
    assert(listing_map(d) =~= m);
}

proof fn lemma_listing_push(c: Seq<(Seq<char>, ResourceView)>, k0: Seq<char>, rv: ResourceView)
    requires
        subjects_unique(c),
        !listing_map(c).contains_key(k0),
    ensures
        subjects_unique(c.push((k0, rv))),
        listing_map(c.push((k0, rv))) == listing_map(c).insert(k0, rv),
{
    let d = c.push((k0, rv));
    assert forall|a: int, b: int| 0 <= a < d.len() && 0 <= b < d.len() && a != b implies #[trigger] d[a].0 != #[trigger] d[b].0 by {
        if a == c.len() {
            assert(c[b].0 == c[b].0);
        } else if b == c.len() {
            assert(c[a].0 == c[a].0);
        }
    }
    let m = listing_map(c).insert(k0, rv);
    assert forall|k: Seq<char>| #[trigger] listing_map(d).contains_key(k) <==> m.contains_key(k) by {
        if listing_map(d).contains_key(k) {
            let j = choose|j: int| 0 <= j < d.len() && #[trigger] d[j].0 == k;
            if j < c.len() {
                assert(c[j].0 == k);
            }
        }
        if listing_map(c).contains_key(k) {
            let j = choose|j: int| 0 <= j < c.len() && #[trigger] c[j].0 == k;
            assert(d[j].0 == k);
        }
        if k == k0 {
            assert(d[c.len() as int].0 == k);
        }
    }
    assert forall|k: Seq<char>| #[trigger] listing_map(d).contains_key(k) implies listing_map(d)[k] == m[k] by {
        let j = choose|j: int| 0 <= j < d.len() && #[trigger] d[j].0 == k;
        lemma_listing_at(d, j);
        if j < c.len() {
            lemma_listing_at(c, j);
        }
    }
    assert(listing_map(d) =~= m);
}

/// A store that keeps its resources in memory, in the order their subjects
/// were first added. It answers for stored subjects only.
pub struct Store {
    entries: Vec<(String, ResourceString)>,
}

impl Store {
    /// The subjects with their resources, in order.
    pub closed spec fn listing(&self) -> Seq<(Seq<char>, ResourceView)> {
        collection_view(self.entries@)
    }

    #[verifier::type_invariant]
    spec fn well_formed(self) -> bool {
        subjects_unique(collection_view(self.entries@))
    }

    /// An empty store.
    pub fn init() -> (s: Store)
        ensures
            s.resources() == Map::<Seq<char>, ResourceView>::empty(),
    {
        let s = Store { entries: Vec::new() };
        assert(collection_view(s.entries@) =~= Seq::<(Seq<char>, ResourceView)>::empty());
        assert(s.resources() =~= Map::<Seq<char>, ResourceView>::empty());
        s
    }

    /// The position of `subject`, if stored.
    fn find(&self, subject: &str) -> (r: Option<usize>)
        ensures
            match r {
                Some(i) => i < self.listing().len() && self.listing()[i as int].0 == subject@,
                None => !self.resources().contains_key(subject@),
            },
    {
        let n = self.entries.len();
        let mut i: usize = 0;
        while i < n
            invariant
                n == self.listing().len(),
                i <= n,
                forall|j: int| 0 <= j < i ==> self.listing()[j].0 != subject@,
            decreases n - i,
        {
            if str_eq(self.entries[i].0.as_str(), subject) {
                return Some(i);
            }
            i = i + 1;
        }
        None
    }

    /// Sets the resource of `subject`: in place if stored, at the end if not.
    fn put(&mut self, subject: String, resource: ResourceString)
        ensures
            final(self).resources() == old(self).resources().insert(subject@, resource@),
    {
        proof {
            use_type_invariant(&*self);
        }
        let ghost c = self.listing();
        match self.find(subject.as_str()) {
            Some(i) => {
                proof {
                    lemma_listing_update(c, i as int, resource@);
                }
                let mut entries: Vec<(String, ResourceString)> = Vec::new();
                std::mem::swap(&mut entries, &mut self.entries);
                let (k, _old) = entries.remove(i);
                entries.insert(i, (k, resource));
                assert(collection_view(entries@) =~= c.update(i as int, (c[i as int].0, resource@)));
                self.entries = entries;
            },
            None => {
                proof {
                    lemma_listing_push(c, subject@, resource@);
                }
                let mut entries: Vec<(String, ResourceString)> = Vec::new();
                std::mem::swap(&mut entries, &mut self.entries);
                let ghost sv = subject@;
                entries.push((subject, resource));
                assert(collection_view(entries@) =~= c.push((sv, resource@)));
                self.entries = entries;
            },
        }
    }
}

impl Storelike for Store {
    closed spec fn resources(&self) -> StoreView {
        listing_map(self.listing())
    }

    open spec fn fetched() -> FetchFn {
        |s: Seq<char>| Err(ErrorView::NotFound(s))
    }

    open spec fn accepts() -> AcceptFn {
        |m: StoreView, s: Seq<char>, r: ResourceView| true
    }

    fn add_atoms(&mut self, atoms: Vec<Atom>) -> (r: AtomicResult<()>)
        ensures
            r is Ok,
    {
        let ghost start = self.resources();
        let ghost av = atoms_view(atoms@);
        let n = atoms.len();
        let mut i: usize = 0;
        while i < n
            invariant
                n == atoms@.len(),
                i <= n,
                av == atoms_view(atoms@),
                self.resources() == apply_atoms(start, av.take(i as int)),
            decreases n - i,
        {
            let atom = &atoms[i];
            assert(av.take(i + 1).drop_last() =~= av.take(i as int));
            assert(av.take(i + 1).last() == atom@);
            let mut resource = match self.get_resource_string(atom.subject.as_str()) {
                Ok(r) => r,
                Err(_) => ResourceString::new(),
            };
            resource.insert(atom.property.clone(), atom.value.clone());
            self.put(atom.subject.clone(), resource);
            i = i + 1;
        }
        assert(av.take(n as int) =~= av);
        Ok(())
    }

    fn add_resource_string(&mut self, subject: String, resource: &ResourceString) -> (r: AtomicResult<()>)
        ensures
            r is Ok,
    {
        self.put(subject, resource.duplicate());
        Ok(())
    }

    fn get_resource_string(&self, subject: &str) -> (r: AtomicResult<ResourceString>) {
        proof {
            use_type_invariant(self);
        }
        match self.find(subject) {
            Some(i) => {
                proof {
                    lemma_listing_at(self.listing(), i as int);
                }
                Ok(self.entries[i].1.duplicate())
            },
            None => Err(AtomicError::NotFound(subject.to_owned())),
        }
    }

    fn all_resources(&self) -> (r: Vec<(String, ResourceString)>)
        ensures
            collection_view(r@) == self.listing(),
    {
        proof {
            use_type_invariant(self);
            lemma_listing_is_listing(self.listing());
        }
        let n = self.entries.len();
        let mut out: Vec<(String, ResourceString)> = Vec::new();
        let mut i: usize = 0;
        while i < n
            invariant
                n == self.listing().len(),
                i <= n,
                collection_view(out@) =~= self.listing().take(i as int),
            decreases n - i,
        {
            let e = &self.entries[i];
            let ghost before = collection_view(out@);
            let pair = (e.0.clone(), e.1.duplicate());
            out.push(pair);
            assert(self.listing()[i as int] == (pair.0@, pair.1@));
            assert(collection_view(out@) =~= before.push((pair.0@, pair.1@)));
            i = i + 1;
        }
        assert(self.listing().take(n as int) =~= self.listing());
        out
    }
}

} // verus!
