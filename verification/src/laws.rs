//! Properties that hold across the operations of a store.
use vstd::prelude::*;
use crate::client::resource_of;
use crate::query::{atom_matches, collection_atoms, collection_matches, matching_atoms};
use crate::resource::{ResourceView, has_key, keys_unique, lemma_insert_unique, lemma_lookup_at, lemma_lookup_insert, lookup, rv_atoms, rv_insert};
use crate::storelike::{
    FetchFn, StoreView, answer, apply_atoms, base_resource, is_listing, spec_shortname_to_url,
    spec_url_to_shortname, store_add_atom, store_set,
};
use crate::delta::DeltaLineView;
use crate::storelike::{
    AcceptFn, DeltaOutcome, PathOutcome, PathReturnView, RichAtomView, delta_run, is_insert, path_walk,
    rv_keys, spec_get_path, spec_get_property,
};
use crate::text::{lemma_split_on_len, split_on};
use crate::numbers::spec_parse_u32;
use crate::json::json_string_array;
use crate::mapping::spec_is_url;
use crate::values::spec_value_new;
use crate::datatype::{DataTypeView, spec_match_datatype};
use crate::json::{JsonInnerView, JsonScalarView};
use crate::storelike::{JsonBuild, PropertyView, ctx_entry, json_build, spec_get_class, spec_properties, spec_property_list};
use crate::urls;
use crate::resources::{PropValsView, law_value_text_round_trip, plain_view, spec_value_text, value_fits};
use crate::storelike::{spec_get_resource, spec_native_values};

verus! {

/// Every resource of the store sets each property at most once.
pub open spec fn store_well_formed(store: StoreView) -> bool {
    forall|s: Seq<char>| #[trigger] store.contains_key(s) ==> keys_unique(store[s])
}

/// Reading after writing: once `add_resource_string` has stored `rv` for
/// `subject`, `get_resource_string(subject)` gives back exactly `rv`, and
/// every other subject is answered as before.
pub proof fn law_read_after_write(f: FetchFn, before: StoreView, subject: Seq<char>, rv: ResourceView, other: Seq<char>)
    ensures
        answer(f, before.insert(subject, rv), subject) == Ok::<ResourceView, crate::errors::ErrorView>(rv),
        other != subject ==> answer(f, before.insert(subject, rv), other) == answer(f, before, other),
{
}

/// `add_atom` sets the atom's property to its value on the subject's
/// resource and leaves the resource's other properties as the store
/// answered them; other subjects keep their resources, held or not (and a
/// refused write changes nothing, by `add_atom`'s contract).
pub proof fn law_add_atom_sets_property(
    f: FetchFn,
    store: StoreView,
    atom: (Seq<char>, Seq<char>, Seq<char>),
    other_property: Seq<char>,
    other_subject: Seq<char>,
)
    requires
        keys_unique(base_resource(f, store, atom.0)),
    ensures
        store_add_atom(f, store, atom).contains_key(atom.0),
        lookup(store_add_atom(f, store, atom)[atom.0], atom.1) == Some(atom.2),
        other_property != atom.1 ==> lookup(store_add_atom(f, store, atom)[atom.0], other_property)
            == lookup(base_resource(f, store, atom.0), other_property),
        other_subject != atom.0 ==> answer(f, store_add_atom(f, store, atom), other_subject) == answer(f, store, other_subject),
        other_subject != atom.0 ==> store_add_atom(f, store, atom).contains_key(other_subject) == store.contains_key(other_subject),
        other_subject != atom.0 && store.contains_key(other_subject)
            ==> store_add_atom(f, store, atom)[other_subject] == store[other_subject],
{
    lemma_lookup_insert(base_resource(f, store, atom.0), atom.1, atom.2, other_property);
}

/// Where the atoms set `(subject, property)`, the last of them wins.
pub open spec fn last_value_for(
    atoms: Seq<(Seq<char>, Seq<char>, Seq<char>)>,
    subject: Seq<char>,
    property: Seq<char>,
) -> Option<Seq<char>>
    decreases atoms.len(),
{
    if atoms.len() == 0 {
        None
    } else if atoms.last().0 == subject && atoms.last().1 == property {
        Some(atoms.last().2)
    } else {
        last_value_for(atoms.drop_last(), subject, property)
    }
}

/// The resource a store holds for `subject`, or an empty one.
pub open spec fn stored_or_empty(store: StoreView, subject: Seq<char>) -> ResourceView {
    if store.contains_key(subject) {
        store[subject]
    } else {
        Seq::empty()
    }
}

/// Adding atoms replaces existing atoms that share subject and property:
/// after `add_atoms`, each property of each subject holds the value of the
/// last atom that sets it, or else the value it held before.
pub proof fn law_add_atoms_last_wins(
    store: StoreView,
    atoms: Seq<(Seq<char>, Seq<char>, Seq<char>)>,
    subject: Seq<char>,
    property: Seq<char>,
)
    requires
        store_well_formed(store),
    ensures
        store_well_formed(apply_atoms(store, atoms)),
        lookup(stored_or_empty(apply_atoms(store, atoms), subject), property) == match last_value_for(atoms, subject, property) {
            Some(v) => Some(v),
            None => lookup(stored_or_empty(store, subject), property),
        },
    decreases atoms.len(),
{
    if atoms.len() > 0 {
        let prev = apply_atoms(store, atoms.drop_last());
        law_add_atoms_last_wins(store, atoms.drop_last(), subject, property);
        let a = atoms.last();
        let base = stored_or_empty(prev, a.0);
        assert(keys_unique(base));
        lemma_insert_unique(base, a.1, a.2);
        let next = store_set(prev, a);
        assert forall|s: Seq<char>| #[trigger] next.contains_key(s) implies keys_unique(next[s]) by {
            if s != a.0 {
                assert(prev.contains_key(s));
            }
        }
        if a.0 == subject {
            lemma_lookup_insert(base, a.1, a.2, property);
        }
    }
}

/// Looking a property up by shortname and then its shortname up by URL
/// gives back the shortname: where `property_shortname_to_url` finds a URL,
/// `property_url_to_shortname` of that URL is the shortname looked for, and
/// the URL is one of the properties searched.
pub proof fn law_shortname_round_trip(f: FetchFn, store: StoreView, shortname: Seq<char>, props: Seq<Seq<char>>)
    ensures
        spec_shortname_to_url(f, store, shortname, props) matches Ok(url) ==> {
            &&& spec_url_to_shortname(f, store, url) == Ok::<Seq<char>, crate::errors::ErrorView>(shortname)
            &&& props.contains(url)
        },
    decreases props.len(),
{
    if props.len() > 0 {
        law_shortname_round_trip(f, store, shortname, props.drop_first());
        if let Ok(url) = spec_shortname_to_url(f, store, shortname, props) {
            if url != props[0] {
                let k = choose|k: int| 0 <= k < props.drop_first().len() && props.drop_first()[k] == url;
                assert(props[k + 1] == url);
            }
        }
    }
}

/// The atoms of a listing of the store are exactly the store's atoms:
/// `(s, p, v)` is among them if and only if the resource of `s` gives `p`
/// the value `v`. So `tpf` with nothing given returns every atom of the store.
pub proof fn law_all_atoms_are_the_store(
    c: Seq<(Seq<char>, ResourceView)>,
    store: StoreView,
    atom: (Seq<char>, Seq<char>, Seq<char>),
)
    requires
        is_listing(c, store),
        store_well_formed(store),
    ensures
        collection_atoms(c).contains(atom) <==> (store.contains_key(atom.0) && lookup(store[atom.0], atom.1) == Some(atom.2)),
{
    lemma_collection_atoms_contains(c, atom);
    if store.contains_key(atom.0) && lookup(store[atom.0], atom.1) == Some(atom.2) {
        let i = choose|i: int| 0 <= i < c.len() && c[i].0 == atom.0;
        assert(store.contains_key(c[i].0));
        let rv = c[i].1;
        assert(store[atom.0] == rv);
        assert(has_key(rv, atom.1));
        let j = crate::resource::key_index(rv, atom.1);
        assert(rv_atoms(c[i].0, rv)[j] == atom);
        assert(rv_atoms(c[i].0, c[i].1).contains(atom));
    }
    if collection_atoms(c).contains(atom) {
        let i = choose|i: int| 0 <= i < c.len() && rv_atoms(c[i].0, c[i].1).contains(atom);
        let j = choose|j: int| 0 <= j < rv_atoms(c[i].0, c[i].1).len() && rv_atoms(c[i].0, c[i].1)[j] == atom;
        assert(store.contains_key(c[i].0));
        assert(store[c[i].0] == c[i].1);
        assert(keys_unique(store[c[i].0]));
        assert(rv_atoms(c[i].0, c[i].1)[j] == (c[i].0, c[i].1[j].0, c[i].1[j].1));
        lemma_lookup_at(c[i].1, j);
    }
}

proof fn lemma_collection_atoms_contains(c: Seq<(Seq<char>, ResourceView)>, atom: (Seq<char>, Seq<char>, Seq<char>))
    ensures
        collection_atoms(c).contains(atom) <==> exists|i: int| 0 <= i < c.len() && #[trigger] rv_atoms(c[i].0, c[i].1).contains(atom),
    decreases c.len(),
{
    if c.len() > 0 {
        let d = c.drop_last();
        lemma_collection_atoms_contains(d, atom);
        let a = collection_atoms(d);
        let b = rv_atoms(c.last().0, c.last().1);
        assert(collection_atoms(c) == a + b);
        if collection_atoms(c).contains(atom) {
            let k = choose|k: int| 0 <= k < (a + b).len() && (a + b)[k] == atom;
            if k < a.len() {
                assert(a[k] == atom);
                let i = choose|i: int| 0 <= i < d.len() && #[trigger] rv_atoms(d[i].0, d[i].1).contains(atom);
                assert(c[i] == d[i]);
            } else {
                assert(b[k - a.len()] == atom);
                assert(rv_atoms(c[c.len() - 1].0, c[c.len() - 1].1).contains(atom));
            }
        }
        if exists|i: int| 0 <= i < c.len() && #[trigger] rv_atoms(c[i].0, c[i].1).contains(atom) {
            let i = choose|i: int| 0 <= i < c.len() && #[trigger] rv_atoms(c[i].0, c[i].1).contains(atom);
            if i < d.len() {
                assert(d[i] == c[i]);
                assert(a.contains(atom));
                let k = choose|k: int| 0 <= k < a.len() && a[k] == atom;
                assert((a + b)[k] == atom);
            } else {
                let k = choose|k: int| 0 <= k < b.len() && b[k] == atom;
                assert((a + b)[a.len() + k] == atom);
            }
        }
    }
}

/// A query on one resource returns exactly the resource's atoms that match
/// it: each returned atom is about the subject and matches, and each
/// matching pair of the resource is returned.
pub proof fn law_query_matches_exactly(
    subject: Seq<char>,
    rv: ResourceView,
    qp: Option<Seq<char>>,
    qv: Option<Seq<char>>,
    atom: (Seq<char>, Seq<char>, Seq<char>),
)
    ensures
        matching_atoms(subject, rv, qp, qv).contains(atom) <==> (atom.0 == subject && rv.contains((atom.1, atom.2))
            && atom_matches(atom.1, atom.2, qp, qv)),
    decreases rv.len(),
{
    if rv.len() > 0 {
        let d = rv.drop_last();
        law_query_matches_exactly(subject, d, qp, qv, atom);
        let prev = matching_atoms(subject, d, qp, qv);
        let last = rv.last();
        if rv.contains((atom.1, atom.2)) {
            let k = choose|k: int| 0 <= k < rv.len() && rv[k] == (atom.1, atom.2);
            if k < d.len() {
                assert(d[k] == rv[k]);
            }
        }
        if d.contains((atom.1, atom.2)) {
            let k = choose|k: int| 0 <= k < d.len() && d[k] == (atom.1, atom.2);
            assert(rv[k] == d[k]);
        }
        if atom_matches(last.0, last.1, qp, qv) {
            let n = prev.push((subject, last.0, last.1));
            if n.contains(atom) {
                let k = choose|k: int| 0 <= k < n.len() && n[k] == atom;
                if k < prev.len() {
                    assert(prev[k] == atom);
                }
            }
            if prev.contains(atom) {
                let k = choose|k: int| 0 <= k < prev.len() && prev[k] == atom;
                assert(n[k] == atom);
            }
            if atom == (subject, last.0, last.1) {
                assert(n[prev.len() as int] == atom);
            }
        }
    }
}

/// Fetching keeps only atoms about the requested subject: every property the
/// resulting resource sets comes, with its value, from an atom about that subject.
pub proof fn law_fetched_atoms_match_subject(
    subject: Seq<char>,
    atoms: Seq<(Seq<char>, Seq<char>, Seq<char>)>,
    property: Seq<char>,
)
    ensures
        keys_unique(resource_of(subject, atoms)),
        lookup(resource_of(subject, atoms), property) == last_value_for(atoms, subject, property),
    decreases atoms.len(),
{
    if atoms.len() > 0 {
        law_fetched_atoms_match_subject(subject, atoms.drop_last(), property);
        let prev = resource_of(subject, atoms.drop_last());
        let a = atoms.last();
        if a.0 == subject {
            lemma_insert_unique(prev, a.1, a.2);
            lemma_lookup_insert(prev, a.1, a.2, property);
        }
    }
}

/// The value that the last insert line for `property` sets, if any.
pub open spec fn last_insert(lines: Seq<DeltaLineView>, property: Seq<char>) -> Option<Seq<char>>
    decreases lines.len(),
{
    if lines.len() == 0 {
        None
    } else {
        match last_insert(lines.drop_first(), property) {
            Some(v) => Some(v),
            None => if is_insert(lines[0].method) && lines[0].property == property {
                Some(lines[0].value)
            } else {
                None
            },
        }
    }
}

/// Processing a delta updates the store: where it applies every line, the
/// subject's resource gives each inserted property the value of the last
/// line that inserts it, and every other property the value it had in the
/// resource the store answered with.
pub proof fn law_delta_sets_values(
    f: FetchFn,
    acc: AcceptFn,
    store: StoreView,
    subject: Seq<char>,
    lines: Seq<DeltaLineView>,
    property: Seq<char>,
)
    requires
        keys_unique(base_resource(f, store, subject)),
    ensures
        delta_run(f, acc, store, subject, lines) matches DeltaOutcome::Applied(fin) ==> {
            &&& fin.contains_key(subject) ==> keys_unique(fin[subject])
            &&& last_insert(lines, property) matches Some(v) ==> fin.contains_key(subject) && lookup(fin[subject], property) == Some(v)
            &&& (last_insert(lines, property) is None && fin.contains_key(subject)) ==> lookup(fin[subject], property)
                == lookup(base_resource(f, store, subject), property)
        },
    decreases lines.len(),
{
    if lines.len() > 0 {
        let l = lines[0];
        let rest = lines.drop_first();
        if is_insert(l.method) {
            let base = base_resource(f, store, subject);
            let r = rv_insert(base, l.property, l.value);
            let next = store.insert(subject, r);
            lemma_insert_unique(base, l.property, l.value);
            assert(base_resource(f, next, subject) == r);
            law_delta_sets_values(f, acc, next, subject, rest, property);
            lemma_lookup_insert(base, l.property, l.value, property);
            if let DeltaOutcome::Applied(fin) = delta_run(f, acc, store, subject, lines) {
                assert(delta_run(f, acc, store, subject, lines) == delta_run(f, acc, next, subject, rest));
                law_delta_keeps_subject(f, acc, next, subject, rest);
            }
        } else {
            law_delta_sets_values(f, acc, store, subject, rest, property);
        }
    }
}

/// Once the subject is stored, processing keeps it stored.
proof fn law_delta_keeps_subject(f: FetchFn, acc: AcceptFn, store: StoreView, subject: Seq<char>, lines: Seq<DeltaLineView>)
    requires
        store.contains_key(subject),
    ensures
        delta_run(f, acc, store, subject, lines) matches DeltaOutcome::Applied(fin) ==> fin.contains_key(subject),
    decreases lines.len(),
{
    if lines.len() > 0 {
        let l = lines[0];
        let rest = lines.drop_first();
        if is_insert(l.method) {
            let next = store.insert(subject, rv_insert(base_resource(f, store, subject), l.property, l.value));
            law_delta_keeps_subject(f, acc, next, subject, rest);
        } else {
            law_delta_keeps_subject(f, acc, store, subject, rest);
        }
    }
}

/// Adding the same atom twice leaves the store as adding it once.
pub proof fn law_add_atom_twice(f: FetchFn, store: StoreView, atom: (Seq<char>, Seq<char>, Seq<char>))
    requires
        keys_unique(base_resource(f, store, atom.0)),
    ensures
        store_add_atom(f, store_add_atom(f, store, atom), atom) == store_add_atom(f, store, atom),
{
    let base = base_resource(f, store, atom.0);
    let rv1 = rv_insert(base, atom.1, atom.2);
    lemma_insert_unique(base, atom.1, atom.2);
    lemma_lookup_insert(base, atom.1, atom.2, atom.1);
    let once = store_add_atom(f, store, atom);
    assert(base_resource(f, once, atom.0) == rv1);
    let k = crate::resource::key_index(rv1, atom.1);
    assert(rv1[k] == (atom.1, atom.2));
    assert(rv_insert(rv1, atom.1, atom.2) =~= rv1);
    assert(store_add_atom(f, once, atom) =~= once);
}

/// The value the atoms leave for `(subject, key)`, starting from `value`.
pub open spec fn value_after(
    atoms: Seq<(Seq<char>, Seq<char>, Seq<char>)>,
    subject: Seq<char>,
    key: Seq<char>,
    value: Seq<char>,
) -> Seq<char> {
    match last_value_for(atoms, subject, key) {
        Some(v) => v,
        None => value,
    }
}

/// `store` with each value that the atoms set replaced, in place, by the
/// last value they give it; nothing added.
pub open spec fn overridden(store: StoreView, atoms: Seq<(Seq<char>, Seq<char>, Seq<char>)>) -> StoreView {
    Map::new(
        |x: Seq<char>| store.contains_key(x),
        |x: Seq<char>| store[x].map_values(|e: (Seq<char>, Seq<char>)| (e.0, value_after(atoms, x, e.0, e.1))),
    )
}

/// Every atom's subject is held and already has the atom's property.
pub open spec fn covers(store: StoreView, atoms: Seq<(Seq<char>, Seq<char>, Seq<char>)>) -> bool {
    forall|i: int| 0 <= i < atoms.len() ==> #[trigger] store.contains_key(atoms[i].0) && has_key(store[atoms[i].0], atoms[i].1)
}

proof fn lemma_apply_covered(u: StoreView, atoms: Seq<(Seq<char>, Seq<char>, Seq<char>)>)
    requires
        store_well_formed(u),
        covers(u, atoms),
    ensures
        apply_atoms(u, atoms) == overridden(u, atoms),
    decreases atoms.len(),
{
    if atoms.len() == 0 {
        assert forall|x: Seq<char>| u.contains_key(x) implies #[trigger] overridden(u, atoms)[x] == u[x] by {
            assert(overridden(u, atoms)[x] =~= u[x]);
        }
        assert(overridden(u, atoms) =~= u);
    } else {
        let init = atoms.drop_last();
        let a = atoms.last();
        assert(covers(u, init)) by {
            assert forall|i: int| 0 <= i < init.len() implies #[trigger] u.contains_key(init[i].0) && has_key(u[init[i].0], init[i].1) by {
                assert(init[i] == atoms[i]);
                assert(u.contains_key(atoms[i].0));
            }
        }
        lemma_apply_covered(u, init);
        let o = overridden(u, init);
        assert(u.contains_key(atoms[atoms.len() - 1].0));
        let ua = u[a.0];
        assert(keys_unique(ua));
        let oa = o[a.0];
        assert(has_key(ua, a.1));
        let j = crate::resource::key_index(ua, a.1);
        assert(oa[j].0 == a.1);
        assert(keys_unique(oa)) by {
            assert forall|p: int, q: int| 0 <= p < oa.len() && 0 <= q < oa.len() && p != q implies #[trigger] oa[p].0 != #[trigger] oa[q].0 by {
                assert(oa[p].0 == ua[p].0 && oa[q].0 == ua[q].0);
            }
        }
        lemma_lookup_at(oa, j);
        let result = overridden(u, atoms);
        assert forall|x: Seq<char>| #[trigger] result.contains_key(x) implies store_set(o, a)[x] == result[x] by {
            if x == a.0 {
                let ins = rv_insert(oa, a.1, a.2);
                assert(ins =~= result[x]) by {
                    assert forall|k: int| 0 <= k < ins.len() implies ins[k] == result[x][k] by {
                        if k != j {
                            assert(ua[k].0 != a.1);
                        }
                    }
                }
            } else {
                assert(store_set(o, a)[x] =~= result[x]);
            }
        }
        assert(store_set(o, a) =~= result);
    }
}

proof fn lemma_applied_covers(s: StoreView, atoms: Seq<(Seq<char>, Seq<char>, Seq<char>)>)
    ensures
        covers(apply_atoms(s, atoms), atoms),
    decreases atoms.len(),
{
    if atoms.len() > 0 {
        let init = atoms.drop_last();
        let a = atoms.last();
        lemma_applied_covers(s, init);
        let prev = apply_atoms(s, init);
        let next = store_set(prev, a);
        assert(apply_atoms(s, atoms) == next);
        let base = if prev.contains_key(a.0) { prev[a.0] } else { Seq::empty() };
        assert forall|i: int| 0 <= i < atoms.len() implies #[trigger] next.contains_key(atoms[i].0) && has_key(next[atoms[i].0], atoms[i].1) by {
            let b = atoms[i];
            if b.0 == a.0 {
                let ins = rv_insert(base, a.1, a.2);
                if b.1 == a.1 {
                    if !has_key(base, a.1) {
                        assert(ins[ins.len() - 1].0 == a.1);
                    } else {
                        assert(ins[crate::resource::key_index(base, a.1)].0 == a.1);
                    }
                } else {
                    assert(i < init.len());
                    assert(init[i] == b);
                    assert(prev.contains_key(init[i].0) && has_key(prev[init[i].0], init[i].1));
                    let k = crate::resource::key_index(base, b.1);
                    assert(ins[k].0 == b.1);
                }
            } else {
                assert(i < init.len());
                assert(init[i] == b);
                assert(prev.contains_key(init[i].0) && has_key(prev[init[i].0], init[i].1));
            }
        }
    }
}

/// Applying the same atoms a second time changes nothing: each value the
/// atoms set already holds their last value, and no property or subject is
/// added. So populating a store twice from the same AD3 text leaves it as
/// populating it once.
pub proof fn law_apply_atoms_twice(store: StoreView, atoms: Seq<(Seq<char>, Seq<char>, Seq<char>)>)
    requires
        store_well_formed(store),
    ensures
        apply_atoms(apply_atoms(store, atoms), atoms) == apply_atoms(store, atoms),
{
    let t = apply_atoms(store, atoms);
    law_add_atoms_last_wins(store, atoms, Seq::empty(), Seq::empty());
    lemma_applied_covers(store, atoms);
    lemma_apply_covered(t, atoms);
    assert forall|x: Seq<char>| t.contains_key(x) implies #[trigger] overridden(t, atoms)[x] == t[x] by {
        let tx = t[x];
        assert(keys_unique(tx));
        assert forall|k: int| 0 <= k < tx.len() implies #[trigger] overridden(t, atoms)[x][k] == tx[k] by {
            law_add_atoms_last_wins(store, atoms, x, tx[k].0);
            lemma_lookup_at(tx, k);
        }
        assert(overridden(t, atoms)[x] =~= tx);
    }
    assert(overridden(t, atoms) =~= t);
}

/// The shortname of the property at `url`, where it can be read.
pub open spec fn shortname_of(f: FetchFn, store: StoreView, url: Seq<char>) -> Option<Seq<char>> {
    match spec_url_to_shortname(f, store, url) {
        Ok(s) => Some(s),
        Err(_) => None,
    }
}

/// Looking a URL's shortname up and then that shortname among the
/// properties gives back the URL, where every property searched has a
/// shortname and no two of them share one.
pub proof fn law_url_round_trip(f: FetchFn, store: StoreView, props: Seq<Seq<char>>, url: Seq<char>)
    requires
        props.contains(url),
        forall|i: int| 0 <= i < props.len() ==> #[trigger] shortname_of(f, store, props[i]) is Some,
        forall|i: int, j: int| 0 <= i < props.len() && 0 <= j < props.len() && i != j
            ==> #[trigger] shortname_of(f, store, props[i]) != #[trigger] shortname_of(f, store, props[j]),
    ensures
        spec_shortname_to_url(f, store, shortname_of(f, store, url)->0, props) == Ok::<Seq<char>, crate::errors::ErrorView>(url),
    decreases props.len(),
{
    let k = shortname_of(f, store, url)->0;
    let u = choose|i: int| 0 <= i < props.len() && props[i] == url;
    assert(shortname_of(f, store, props[0]) is Some);
    let s0 = shortname_of(f, store, props[0])->0;
    if s0 == k {
        if props[0] != url {
            assert(u != 0);
            assert(shortname_of(f, store, props[u]) == shortname_of(f, store, props[0]));
        }
    } else {
        let rest = props.drop_first();
        assert(u != 0);
        assert(rest[u - 1] == url);
        assert forall|i: int| 0 <= i < rest.len() implies #[trigger] shortname_of(f, store, rest[i]) is Some by {
            assert(rest[i] == props[i + 1]);
        }
        assert forall|i: int, j: int| 0 <= i < rest.len() && 0 <= j < rest.len() && i != j
            implies #[trigger] shortname_of(f, store, rest[i]) != #[trigger] shortname_of(f, store, rest[j]) by {
            assert(rest[i] == props[i + 1] && rest[j] == props[j + 1]);
        }
        law_url_round_trip(f, store, rest, url);
    }
}

/// Cutting after a separator splits the two parts apart.
pub proof fn lemma_split_on_concat(x: Seq<char>, y: Seq<char>, sep: char)
    ensures
        split_on(x.push(sep) + y, sep) == split_on(x, sep) + split_on(y, sep),
    decreases y.len(),
{
    lemma_split_on_len(x, sep);
    lemma_split_on_len(y, sep);
    if y.len() == 0 {
        assert(x.push(sep) + y =~= x.push(sep));
        assert(x.push(sep).drop_last() =~= x);
        assert(x.push(sep).last() == sep);
        assert(split_on(x.push(sep), sep) == split_on(x, sep).push(Seq::<char>::empty()));
        assert(split_on(y, sep) =~= seq![Seq::<char>::empty()]);
        assert(split_on(x, sep) + split_on(y, sep) =~= split_on(x, sep).push(Seq::<char>::empty()));
    } else {
        let init = y.drop_last();
        lemma_split_on_concat(x, init, sep);
        lemma_split_on_len(init, sep);
        assert((x.push(sep) + y).drop_last() =~= x.push(sep) + init);
        assert((x.push(sep) + y).last() == y.last());
        let a = split_on(x, sep);
        let b = split_on(init, sep);
        if y.last() == sep {
            assert((a + b).push(Seq::<char>::empty()) =~= a + b.push(Seq::<char>::empty()));
        } else {
            assert((a + b).update((a + b).len() - 1, (a + b).last().push(y.last()))
                =~= a + b.update(b.len() - 1, b.last().push(y.last())));
        }
    }
}

/// An empty item anywhere in the rest of a path changes nothing.
pub proof fn lemma_path_walk_skips_empty(
    f: FetchFn,
    store: StoreView,
    subject: Seq<char>,
    rv: ResourceView,
    current: PathReturnView,
    items: Seq<Seq<char>>,
    k: int,
)
    requires
        0 <= k <= items.len(),
    ensures
        path_walk(f, store, subject, rv, current, items.insert(k, Seq::<char>::empty()))
            == path_walk(f, store, subject, rv, current, items),
    decreases items.len(),
{
    let longer = items.insert(k, Seq::<char>::empty());
    if k == 0 {
        assert(longer.drop_first() =~= items);
    } else {
        let item = items[0];
        let rest = items.drop_first();
        assert(longer[0] == item);
        assert(longer.drop_first() =~= rest.insert(k - 1, Seq::<char>::empty()));
        if item.len() == 0 {
            lemma_path_walk_skips_empty(f, store, subject, rv, current, rest, k - 1);
        } else {
            match spec_parse_u32(item) {
                Some(i) => match current {
                    PathReturnView::Atom(atom) => match lookup(rv, atom.property.subject) {
                        None => {},
                        Some(array) => match json_string_array(array) {
                            None => {},
                            Some(vector) => if vector.len() > i {
                                let url = vector[i as int];
                                match answer(f, store, url) {
                                    Err(_) => {},
                                    Ok(next) => {
                                        lemma_path_walk_skips_empty(f, store, url, next, PathReturnView::Subject(url), rest, k - 1);
                                    },
                                }
                            },
                        },
                    },
                    PathReturnView::Subject(_) => {},
                },
                None => match current {
                    PathReturnView::Atom(_) => {},
                    PathReturnView::Subject(_) => {
                        let prop = if spec_is_url(item) {
                            Ok(item)
                        } else {
                            spec_shortname_to_url(f, store, item, rv_keys(rv))
                        };
                        match prop {
                            Err(_) => {},
                            Ok(property_url) => match lookup(rv, property_url) {
                                None => {},
                                Some(value) => match spec_get_property(f, store, property_url) {
                                    Err(_) => {},
                                    Ok(property) => match spec_value_new(value, property.data_type) {
                                        Err(_) => {},
                                        Ok(nv) => {
                                            lemma_path_walk_skips_empty(
                                                f,
                                                store,
                                                subject,
                                                rv,
                                                PathReturnView::Atom(RichAtomView { subject, property, value, native_value: nv }),
                                                rest,
                                                k - 1,
                                            );
                                        },
                                    },
                                },
                            },
                        }
                    },
                },
            }
        }
    }
}

/// A doubled space in a path is read as a single one: following
/// `a` + two spaces + `b` ends as following `a` + one space + `b`, for every
/// `a` and `b`. `try_get_path` answers by `spec_get_path` on every input;
/// `get_path` does where the walk does not halt.
pub proof fn law_path_double_space(f: FetchFn, store: StoreView, a: Seq<char>, b: Seq<char>, mapping: Option<ResourceView>)
    ensures
        spec_get_path(f, store, a.push(' ').push(' ') + b, mapping) == spec_get_path(f, store, a.push(' ') + b, mapping),
{
    let e = Seq::<char>::empty();
    lemma_split_on_concat(a, b, ' ');
    lemma_split_on_concat(a, e.push(' ') + b, ' ');
    lemma_split_on_concat(e, b, ' ');
    assert(a.push(' ').push(' ') + b =~= a.push(' ') + (e.push(' ') + b));
    assert(split_on(e, ' ') =~= seq![e]);
    lemma_split_on_len(a, ' ');
    lemma_split_on_len(b, ' ');
    let sa = split_on(a, ' ');
    let sb = split_on(b, ' ');
    let one = sa + sb;
    let two = sa + (seq![e] + sb);
    assert(two =~= one.insert(sa.len() as int, e));
    assert(two[0] == one[0]);
    assert(two.drop_first() =~= one.drop_first().insert(sa.len() - 1, e));
    let first = one[0];
    let id = match mapping {
        None => Some(first),
        Some(m) => crate::mapping::spec_try_mapping_or_url(m, first),
    };
    if let Some(id_url) = id {
        if let Ok(rv) = answer(f, store, id_url) {
            lemma_path_walk_skips_empty(
                f,
                store,
                id_url,
                rv,
                PathReturnView::Subject(id_url),
                one.drop_first(),
                sa.len() - 1,
            );
        }
    }
}

/// No property occurs twice among the values.
pub open spec fn propvals_distinct(pv: PropValsView) -> bool {
    forall|i: int, j: int| 0 <= i < pv.len() && 0 <= j < pv.len() && i != j ==> #[trigger] pv[i].0 != #[trigger] pv[j].0
}

/// The values written as text, in the same order.
pub open spec fn texts_of(pv: PropValsView) -> ResourceView {
    pv.map_values(|e: (Seq<char>, crate::values::NativeValueView)| (e.0, spec_value_text(e.1)))
}

proof fn lemma_plain_view_distinct(pv: PropValsView)
    requires
        propvals_distinct(pv),
    ensures
        plain_view(pv) == texts_of(pv),
    decreases pv.len(),
{
    if pv.len() > 0 {
        let init = pv.drop_last();
        assert(propvals_distinct(init)) by {
            assert forall|i: int, j: int| 0 <= i < init.len() && 0 <= j < init.len() && i != j
                implies #[trigger] init[i].0 != #[trigger] init[j].0 by {
                assert(init[i] == pv[i] && init[j] == pv[j]);
            }
        }
        lemma_plain_view_distinct(init);
        let t = texts_of(init);
        let k = pv.last().0;
        if has_key(t, k) {
            let i = crate::resource::key_index(t, k);
            assert(t[i].0 == pv[i].0);
            assert(pv[i].0 == pv[pv.len() - 1].0);
        }
        assert(texts_of(pv) =~= t.push((k, spec_value_text(pv.last().1))));
    }
}

proof fn lemma_native_values_of_texts(f: FetchFn, store: StoreView, pv: PropValsView)
    requires
        forall|i: int| 0 <= i < pv.len() ==> (#[trigger] spec_get_property(f, store, pv[i].0) matches Ok(p) && value_fits(pv[i].1, p.data_type)),
    ensures
        spec_native_values(f, store, texts_of(pv)) == Some(Ok::<PropValsView, crate::errors::ErrorView>(pv)),
    decreases pv.len(),
{
    let t = texts_of(pv);
    if pv.len() == 0 {
        assert(t =~= Seq::<(Seq<char>, Seq<char>)>::empty());
        assert(pv =~= Seq::<(Seq<char>, crate::values::NativeValueView)>::empty());
    } else {
        let init = pv.drop_last();
        assert forall|i: int| 0 <= i < init.len() implies (#[trigger] spec_get_property(f, store, init[i].0) matches Ok(p) && value_fits(init[i].1, p.data_type)) by {
            assert(init[i] == pv[i]);
            assert(spec_get_property(f, store, pv[i].0) matches Ok(p) && value_fits(pv[i].1, p.data_type));
        }
        lemma_native_values_of_texts(f, store, init);
        assert(t.drop_last() =~= texts_of(init));
        let last = pv[pv.len() - 1];
        assert(spec_get_property(f, store, last.0) matches Ok(p) && value_fits(last.1, p.data_type));
        let p = spec_get_property(f, store, last.0)->Ok_0;
        law_value_text_round_trip(last.1, p.data_type);
        assert(t.last() == (last.0, spec_value_text(last.1)));
        assert(spec_native_values(f, store, t.drop_last()) == Some(Ok::<PropValsView, crate::errors::ErrorView>(init)));
        assert(init.push((last.0, last.1)) =~= pv);
    }
}

/// Reading after writing a whole resource: once `add_resource` has stored
/// values `pv` for `subject`, no property set twice, `get_resource` of the
/// subject gives back exactly those values, where each is of the kind that
/// its property's datatype (as the store then reads it) gives.
pub proof fn law_get_resource_after_add(f: FetchFn, store: StoreView, subject: Seq<char>, pv: PropValsView)
    requires
        propvals_distinct(pv),
        forall|i: int| 0 <= i < pv.len() ==> (#[trigger] spec_get_property(f, store.insert(subject, plain_view(pv)), pv[i].0) matches Ok(p)
            && value_fits(pv[i].1, p.data_type)),
    ensures
        spec_get_resource(f, store.insert(subject, plain_view(pv)), subject)
            == Some(Ok::<(Seq<char>, PropValsView), crate::errors::ErrorView>((subject, pv))),
{
    let after = store.insert(subject, plain_view(pv));
    lemma_plain_view_distinct(pv);
    lemma_native_values_of_texts(f, after, pv);
    assert(answer(f, after, subject) == Ok::<ResourceView, crate::errors::ErrorView>(plain_view(pv)));
}

proof fn lemma_collection_matches_contains(
    c: Seq<(Seq<char>, ResourceView)>,
    qp: Option<Seq<char>>,
    qv: Option<Seq<char>>,
    atom: (Seq<char>, Seq<char>, Seq<char>),
)
    ensures
        collection_matches(c, qp, qv).contains(atom) <==> exists|i: int| 0 <= i < c.len() && #[trigger] matching_atoms(c[i].0, c[i].1, qp, qv).contains(atom),
    decreases c.len(),
{
    if c.len() > 0 {
        let d = c.drop_last();
        lemma_collection_matches_contains(d, qp, qv, atom);
        let a = collection_matches(d, qp, qv);
        let b = matching_atoms(c.last().0, c.last().1, qp, qv);
        assert(collection_matches(c, qp, qv) == a + b);
        if collection_matches(c, qp, qv).contains(atom) {
            let k = choose|k: int| 0 <= k < (a + b).len() && (a + b)[k] == atom;
            if k < a.len() {
                assert(a[k] == atom);
                let i = choose|i: int| 0 <= i < d.len() && #[trigger] matching_atoms(d[i].0, d[i].1, qp, qv).contains(atom);
                assert(c[i] == d[i]);
            } else {
                assert(b[k - a.len()] == atom);
                assert(matching_atoms(c[c.len() - 1].0, c[c.len() - 1].1, qp, qv).contains(atom));
            }
        }
        if exists|i: int| 0 <= i < c.len() && #[trigger] matching_atoms(c[i].0, c[i].1, qp, qv).contains(atom) {
            let i = choose|i: int| 0 <= i < c.len() && #[trigger] matching_atoms(c[i].0, c[i].1, qp, qv).contains(atom);
            if i < d.len() {
                assert(d[i] == c[i]);
                assert(a.contains(atom));
                let k = choose|k: int| 0 <= k < a.len() && a[k] == atom;
                assert((a + b)[k] == atom);
            } else {
                let k = choose|k: int| 0 <= k < b.len() && b[k] == atom;
                assert((a + b)[a.len() + k] == atom);
            }
        }
    }
}

/// A query without a subject, with a property or a value given, returns
/// exactly the atoms of the store that fit the property/value combination:
/// the atom has the given property, where one is given, and its value is
/// the given value or a JSON array of strings that holds it, where one is
/// given. Both conditions hold together.
pub proof fn law_tpf_property_and_value(
    c: Seq<(Seq<char>, ResourceView)>,
    store: StoreView,
    qp: Option<Seq<char>>,
    qv: Option<Seq<char>>,
    atom: (Seq<char>, Seq<char>, Seq<char>),
)
    requires
        is_listing(c, store),
        store_well_formed(store),
        qp is Some || qv is Some,
    ensures
        crate::storelike::spec_tpf_all(c, qp, qv).contains(atom) <==> {
            &&& store.contains_key(atom.0)
            &&& lookup(store[atom.0], atom.1) == Some(atom.2)
            &&& qp matches Some(p) ==> atom.1 == p
            &&& qv matches Some(v) ==> (atom.2 == v || (atom.2.len() > 0 && atom.2[0] == '['
                && json_string_array(atom.2) is Some && json_string_array(atom.2)->0.contains(v)))
        },
{
    lemma_collection_matches_contains(c, qp, qv, atom);
    let fits = store.contains_key(atom.0) && lookup(store[atom.0], atom.1) == Some(atom.2)
        && crate::query::atom_matches(atom.1, atom.2, qp, qv);
    if collection_matches(c, qp, qv).contains(atom) {
        let i = choose|i: int| 0 <= i < c.len() && #[trigger] matching_atoms(c[i].0, c[i].1, qp, qv).contains(atom);
        law_query_matches_exactly(c[i].0, c[i].1, qp, qv, atom);
        assert(store.contains_key(c[i].0));
        let rv = c[i].1;
        assert(keys_unique(store[c[i].0]));
        let j = choose|j: int| 0 <= j < rv.len() && rv[j] == (atom.1, atom.2);
        lemma_lookup_at(rv, j);
    }
    if fits {
        let i = choose|i: int| 0 <= i < c.len() && c[i].0 == atom.0;
        assert(store.contains_key(c[i].0));
        let rv = c[i].1;
        assert(store[atom.0] == rv);
        assert(has_key(rv, atom.1));
        let j = crate::resource::key_index(rv, atom.1);
        assert(rv[j] == (atom.1, atom.2));
        assert(rv.contains((atom.1, atom.2)));
        law_query_matches_exactly(c[i].0, c[i].1, qp, qv, atom);
    }
}

/// Each known datatype URL names its own datatype, and every other URL is
/// an unsupported datatype that keeps its URL.
pub proof fn law_datatype_urls(url: Seq<char>)
    ensures
        spec_match_datatype(urls::ATOMIC_URL@) == DataTypeView::AtomicUrl,
        spec_match_datatype(urls::DATE@) == DataTypeView::Date,
        spec_match_datatype(urls::INTEGER@) == DataTypeView::Integer,
        spec_match_datatype(urls::MARKDOWN@) == DataTypeView::Markdown,
        spec_match_datatype(urls::RESOURCE_ARRAY@) == DataTypeView::ResourceArray,
        spec_match_datatype(urls::SLUG@) == DataTypeView::Slug,
        spec_match_datatype(urls::STRING@) == DataTypeView::String,
        spec_match_datatype(urls::TIMESTAMP@) == DataTypeView::Timestamp,
        !(url == urls::ATOMIC_URL@ || url == urls::DATE@ || url == urls::INTEGER@ || url == urls::MARKDOWN@
            || url == urls::RESOURCE_ARRAY@ || url == urls::SLUG@ || url == urls::STRING@ || url == urls::TIMESTAMP@)
            ==> spec_match_datatype(url) == DataTypeView::Unsupported(url),
{
    reveal_strlit("https://atomicdata.dev/datatypes/atomicURL");
    reveal_strlit("https://atomicdata.dev/datatypes/date");
    reveal_strlit("https://atomicdata.dev/datatypes/integer");
    reveal_strlit("https://atomicdata.dev/datatypes/markdown");
    reveal_strlit("https://atomicdata.dev/datatypes/resourceArray");
    reveal_strlit("https://atomicdata.dev/datatypes/slug");
    reveal_strlit("https://atomicdata.dev/datatypes/string");
    reveal_strlit("https://atomicdata.dev/datatypes/timestamp");
    assert(urls::ATOMIC_URL@[33] == 'a' && urls::DATE@[33] == 'd' && urls::INTEGER@[33] == 'i');
    assert(urls::MARKDOWN@[33] == 'm' && urls::RESOURCE_ARRAY@[33] == 'r' && urls::SLUG@[33] == 's');
    assert(urls::STRING@[33] == 's' && urls::TIMESTAMP@[33] == 't');
    assert(urls::SLUG@.len() != urls::STRING@.len());
}

/// The JSON-LD context entry of a property, by its datatype: links are
/// `{"@id": url, "@type": "@id"}`, dates and integers carry their XML
/// Schema type, resource arrays are ordered lists
/// `{"@id": url, "@container": "@list"}`, and every other property is its
/// bare URL.
pub proof fn law_json_ld_context_entries(url: Seq<char>, other: DataTypeView)
    requires
        !(other is AtomicUrl || other is Date || other is Integer || other is ResourceArray),
    ensures
        ctx_entry(url, DataTypeView::AtomicUrl) == JsonInnerView::Object(
            seq![("@id"@, JsonScalarView::Str(url)), ("@type"@, JsonScalarView::Str("@id"@))],
        ),
        ctx_entry(url, DataTypeView::Date) == JsonInnerView::Object(
            seq![("@id"@, JsonScalarView::Str(url)), ("@type"@, JsonScalarView::Str("http://www.w3.org/2001/XMLSchema#date"@))],
        ),
        ctx_entry(url, DataTypeView::Integer) == JsonInnerView::Object(
            seq![("@id"@, JsonScalarView::Str(url)), ("@type"@, JsonScalarView::Str("http://www.w3.org/2001/XMLSchema#integer"@))],
        ),
        ctx_entry(url, DataTypeView::ResourceArray) == JsonInnerView::Object(
            seq![("@id"@, JsonScalarView::Str(url)), ("@container"@, JsonScalarView::Str("@list"@))],
        ),
        ctx_entry(url, other) == JsonInnerView::Scalar(JsonScalarView::Str(url)),
{
}

/// Serialising to JSON gives each property, in the resource's order, a
/// member under its shortname holding its value read by the property's
/// datatype; for JSON-LD also a context entry under the same shortname,
/// the entry that its URL and datatype call for, and for plain JSON none.
pub proof fn law_json_ld_members(f: FetchFn, store: StoreView, rv: ResourceView, json_ld: bool)
    ensures
        json_build(f, store, rv, json_ld) matches JsonBuild::Built(root, ctx) ==> {
            &&& root.len() == rv.len()
            &&& ctx.len() == (if json_ld { rv.len() } else { 0 })
            &&& forall|k: int| 0 <= k < rv.len() ==> (#[trigger] spec_get_property(f, store, rv[k].0) matches Ok(p)
                && spec_value_new(rv[k].1, p.data_type) is Ok
                && root[k] == (p.shortname, crate::json::JsonMemberView::Scalar(
                    crate::storelike::value_json(spec_value_new(rv[k].1, p.data_type)->Ok_0),
                ))
                && (json_ld ==> ctx[k] == (p.shortname, ctx_entry(rv[k].0, p.data_type))))
        },
    decreases rv.len(),
{
    if rv.len() > 0 {
        let d = rv.drop_last();
        law_json_ld_members(f, store, d, json_ld);
        if let JsonBuild::Built(root, ctx) = json_build(f, store, rv, json_ld) {
            assert(json_build(f, store, d, json_ld) is Built);
            assert forall|k: int| 0 <= k < rv.len() implies (#[trigger] spec_get_property(f, store, rv[k].0) matches Ok(p)
                && spec_value_new(rv[k].1, p.data_type) is Ok
                && root[k] == (p.shortname, crate::json::JsonMemberView::Scalar(
                    crate::storelike::value_json(spec_value_new(rv[k].1, p.data_type)->Ok_0),
                ))
                && (json_ld ==> ctx[k] == (p.shortname, ctx_entry(rv[k].0, p.data_type)))) by {
                if k < d.len() {
                    assert(rv[k] == d[k]);
                    assert(spec_get_property(f, store, d[k].0) is Ok);
                }
            }
        }
    }
}

proof fn lemma_split_on_no_sep(x: Seq<char>, sep: char)
    requires
        !x.contains(sep),
    ensures
        split_on(x, sep) == seq![x],
    decreases x.len(),
{
    if x.len() > 0 {
        let d = x.drop_last();
        assert(!d.contains(sep)) by {
            if d.contains(sep) {
                let k = choose|k: int| 0 <= k < d.len() && d[k] == sep;
                assert(x[k] == sep);
            }
        }
        lemma_split_on_no_sep(d, sep);
        assert(x[x.len() - 1] != sep);
        assert(d.push(x.last()) =~= x);
        assert(seq![d].update(0, seq![d].last().push(x.last())) =~= seq![x]);
    } else {
        assert(x =~= Seq::<char>::empty());
    }
}

/// The items of `first` + `tail`, where `first` holds no space and `tail`
/// is empty or starts with one: `first`, then the items of the rest.
proof fn lemma_first_item(first: Seq<char>, tail: Seq<char>)
    requires
        !first.contains(' '),
        tail.len() == 0 || tail[0] == ' ',
    ensures
        split_on(first + tail, ' ')[0] == first,
        split_on(first + tail, ' ').len() >= 1,
        (split_on(first + tail, ' ').len() == 1) == (tail.len() == 0),
        tail.len() > 0 ==> split_on(first + tail, ' ').drop_first() == split_on(tail.drop_first(), ' '),
{
    lemma_split_on_no_sep(first, ' ');
    if tail.len() == 0 {
        assert(first + tail =~= first);
    } else {
        let y = tail.drop_first();
        assert(first + tail =~= first.push(' ') + y);
        lemma_split_on_concat(first, y, ' ');
        lemma_split_on_len(y, ' ');
        assert((seq![first] + split_on(y, ' ')).drop_first() =~= split_on(y, ' '));
        assert((seq![first] + split_on(y, ' '))[0] == first);
    }
}

/// A path's first item goes through the mapping, where one is given: a
/// mapped name stands for its URL, an unmapped URL (one starting with
/// `http`) stands for itself, so the path is followed as with no mapping,
/// and any other unmapped name is refused with `NoMapping`.
pub proof fn law_path_mapping(f: FetchFn, store: StoreView, first: Seq<char>, tail: Seq<char>, m: ResourceView)
    requires
        !first.contains(' '),
        tail.len() == 0 || tail[0] == ' ',
    ensures
        lookup(m, first) is None && first.len() >= 4 && first[0] == 'h' && first[1] == 't' && first[2] == 't'
            && first[3] == 'p' ==> spec_get_path(f, store, first + tail, Some(m)) == spec_get_path(f, store, first + tail, None),
        lookup(m, first) is None && !(first.len() >= 4 && first[0] == 'h' && first[1] == 't' && first[2] == 't'
            && first[3] == 'p') ==> spec_get_path(f, store, first + tail, Some(m)) == PathOutcome::Ends(
            Err(crate::errors::ErrorView::NoMapping(first)),
        ),
        lookup(m, first) matches Some(u) && !u.contains(' ') ==> spec_get_path(f, store, first + tail, Some(m))
            == spec_get_path(f, store, lookup(m, first)->0 + tail, None),
{
    lemma_first_item(first, tail);
    if let Some(u) = lookup(m, first) {
        if !u.contains(' ') {
            lemma_first_item(u, tail);
        }
    }
}

/// `ps` are the properties that a property-list value lists: none where
/// the value is absent; else the value is a JSON array of strings and `ps`
/// are the properties at its URLs, in order.
pub open spec fn lists_properties(f: FetchFn, store: StoreView, text: Option<Seq<char>>, ps: Seq<PropertyView>) -> bool {
    match text {
        None => ps.len() == 0,
        Some(t) => match json_string_array(t) {
            None => false,
            Some(list) => list.len() == ps.len() && forall|i: int|
                0 <= i < list.len() ==> #[trigger] spec_get_property(f, store, list[i]) == Ok::<PropertyView, crate::errors::ErrorView>(ps[i]),
        },
    }
}

/// A property-list value can be read: it is absent, or a JSON array of
/// strings whose every URL is a readable property.
pub open spec fn list_readable(f: FetchFn, store: StoreView, text: Option<Seq<char>>) -> bool {
    match text {
        None => true,
        Some(t) => match json_string_array(t) {
            None => false,
            Some(list) => forall|i: int| 0 <= i < list.len() ==> #[trigger] spec_get_property(f, store, list[i]) is Ok,
        },
    }
}

proof fn lemma_properties(f: FetchFn, store: StoreView, list: Seq<Seq<char>>)
    ensures
        (spec_properties(f, store, list) is Some) == (forall|i: int| 0 <= i < list.len() ==> #[trigger] spec_get_property(f, store, list[i]) is Ok),
        spec_properties(f, store, list) is Some ==> {
            let ps = spec_properties(f, store, list)->0;
            &&& ps.len() == list.len()
            &&& forall|i: int| 0 <= i < list.len() ==> #[trigger] spec_get_property(f, store, list[i]) == Ok::<PropertyView, crate::errors::ErrorView>(ps[i])
        },
    decreases list.len(),
{
    if list.len() > 0 {
        let d = list.drop_last();
        lemma_properties(f, store, d);
        if forall|i: int| 0 <= i < list.len() ==> #[trigger] spec_get_property(f, store, list[i]) is Ok {
            assert forall|i: int| 0 <= i < d.len() implies #[trigger] spec_get_property(f, store, d[i]) is Ok by {
                assert(d[i] == list[i]);
            }
            assert(spec_get_property(f, store, list[list.len() - 1]) is Ok);
        }
        if spec_properties(f, store, list) is Some {
            let ps = spec_properties(f, store, list)->0;
            let pd = spec_properties(f, store, d)->0;
            assert forall|i: int| 0 <= i < list.len() implies #[trigger] spec_get_property(f, store, list[i]) == Ok::<PropertyView, crate::errors::ErrorView>(ps[i]) by {
                if i < d.len() {
                    assert(d[i] == list[i]);
                    assert(spec_get_property(f, store, d[i]) == Ok::<PropertyView, crate::errors::ErrorView>(pd[i]));
                }
            }
        } else {
            if spec_properties(f, store, d) is Some {
                assert(spec_get_property(f, store, list.last()) is Err);
                assert(!(spec_get_property(f, store, list[list.len() - 1]) is Ok));
            } else {
                let i = choose|i: int| 0 <= i < d.len() && !(#[trigger] spec_get_property(f, store, d[i]) is Ok);
                assert(d[i] == list[i]);
                assert(!(spec_get_property(f, store, list[i]) is Ok));
            }
        }
    }
}

proof fn lemma_property_list(f: FetchFn, store: StoreView, text: Option<Seq<char>>)
    ensures
        (spec_property_list(f, store, text) is Some) == list_readable(f, store, text),
        spec_property_list(f, store, text) is Some ==> lists_properties(f, store, text, spec_property_list(f, store, text)->0),
{
    if let Some(t) = text {
        if let Some(list) = json_string_array(t) {
            lemma_properties(f, store, list);
        }
    }
}

/// A class is read from its resource: its shortname and description are
/// the resource's, its required properties are those that the resource's
/// `requires` array lists and its recommended properties those that its
/// `recommends` array lists, in order (none where the array is absent).
/// And a class can be read wherever its resource has a shortname and a
/// description and both arrays, where present, list readable properties.
pub proof fn law_class_reads_its_resource(f: FetchFn, store: StoreView, subject: Seq<char>)
    ensures
        spec_get_class(f, store, subject) matches Some(cls) ==> ({
            &&& answer(f, store, subject) is Ok
            &&& cls.subject == subject
            &&& lookup(answer(f, store, subject)->Ok_0, urls::SHORTNAME@) == Some(cls.shortname)
            &&& lookup(answer(f, store, subject)->Ok_0, urls::DESCRIPTION@) == Some(cls.description)
            &&& lists_properties(f, store, lookup(answer(f, store, subject)->Ok_0, urls::REQUIRES@), cls.required)
            &&& lists_properties(f, store, lookup(answer(f, store, subject)->Ok_0, urls::RECOMMENDS@), cls.recommended)
        }),
        (answer(f, store, subject) matches Ok(rv) && lookup(rv, urls::SHORTNAME@) is Some
            && lookup(rv, urls::DESCRIPTION@) is Some && list_readable(f, store, lookup(rv, urls::REQUIRES@))
            && list_readable(f, store, lookup(rv, urls::RECOMMENDS@))) ==> spec_get_class(f, store, subject) is Some,
{
    if let Ok(rv) = answer(f, store, subject) {
        lemma_property_list(f, store, lookup(rv, urls::REQUIRES@));
        lemma_property_list(f, store, lookup(rv, urls::RECOMMENDS@));
    }
}

/// A query with a subject returns exactly the atoms of that subject's
/// resource that fit the property/value combination, as without a subject.
pub proof fn law_tpf_subject_property_and_value(
    f: FetchFn,
    store: StoreView,
    subject: Seq<char>,
    qp: Option<Seq<char>>,
    qv: Option<Seq<char>>,
    atom: (Seq<char>, Seq<char>, Seq<char>),
)
    requires
        answer(f, store, subject) is Ok ==> keys_unique(answer(f, store, subject)->Ok_0),
        qp is Some || qv is Some,
    ensures
        crate::storelike::spec_tpf_subject(f, store, subject, qp, qv).contains(atom) <==> {
            &&& answer(f, store, subject) is Ok
            &&& atom.0 == subject
            &&& lookup(answer(f, store, subject)->Ok_0, atom.1) == Some(atom.2)
            &&& qp matches Some(p) ==> atom.1 == p
            &&& qv matches Some(v) ==> (atom.2 == v || (atom.2.len() > 0 && atom.2[0] == '['
                && json_string_array(atom.2) is Some && json_string_array(atom.2)->0.contains(v)))
        },
{
    if let Ok(rv) = answer(f, store, subject) {
        law_query_matches_exactly(subject, rv, qp, qv, atom);
        if rv.contains((atom.1, atom.2)) {
            let j = choose|j: int| 0 <= j < rv.len() && rv[j] == (atom.1, atom.2);
            lemma_lookup_at(rv, j);
        }
        if lookup(rv, atom.1) == Some(atom.2) {
            let j = crate::resource::key_index(rv, atom.1);
            assert(rv[j] == (atom.1, atom.2));
        }
    }
}

proof fn lemma_three_items(s: Seq<char>, p: Seq<char>, k: Seq<char>)
    requires
        !s.contains(' '),
        !p.contains(' '),
        !k.contains(' '),
    ensures
        split_on(s + seq![' '] + p + seq![' '] + k, ' ') == seq![s, p, k],
        split_on(s + seq![' '] + p, ' ') == seq![s, p],
{
    lemma_split_on_no_sep(s, ' ');
    lemma_split_on_no_sep(p, ' ');
    lemma_split_on_no_sep(k, ' ');
    lemma_split_on_concat(p, k, ' ');
    assert(p + seq![' '] + k =~= p.push(' ') + k);
    lemma_split_on_concat(s, p.push(' ') + k, ' ');
    assert(s + seq![' '] + p + seq![' '] + k =~= s.push(' ') + (p.push(' ') + k));
    assert(seq![s] + (seq![p] + seq![k]) =~= seq![s, p, k]);
    lemma_split_on_concat(s, p, ' ');
    assert(s + seq![' '] + p =~= s.push(' ') + p);
    assert(seq![s] + seq![p] =~= seq![s, p]);
}

/// Following `subject property` reads the property's value on the
/// subject's resource: the path ends in the atom of that subject, property
/// and value, the value read by the property's datatype.
pub proof fn law_path_property(
    f: FetchFn,
    store: StoreView,
    subject: Seq<char>,
    property_url: Seq<char>,
    rv: ResourceView,
    value: Seq<char>,
    prop: PropertyView,
    nv: crate::values::NativeValueView,
)
    requires
        !subject.contains(' '),
        !property_url.contains(' '),
        property_url.len() >= 4 && property_url[0] == 'h' && property_url[1] == 't' && property_url[2] == 't' && property_url[3] == 'p',
        answer(f, store, subject) == Ok::<ResourceView, crate::errors::ErrorView>(rv),
        lookup(rv, property_url) == Some(value),
        spec_get_property(f, store, property_url) == Ok::<PropertyView, crate::errors::ErrorView>(prop),
        spec_value_new(value, prop.data_type) == Ok::<crate::values::NativeValueView, crate::errors::ErrorView>(nv),
    ensures
        spec_get_path(f, store, subject + seq![' '] + property_url, None) == PathOutcome::Ends(
            Ok(PathReturnView::Atom(RichAtomView { subject, property: prop, value, native_value: nv })),
        ),
{
    lemma_three_items(subject, property_url, seq!['0']);
    assert(!crate::numbers::is_digit(property_url[0]));
    assert(spec_parse_u32(property_url) is None);
    assert(seq![subject, property_url].drop_first() =~= seq![property_url]);
    assert(seq![property_url].drop_first() =~= Seq::<Seq<char>>::empty());
    let e = Seq::<Seq<char>>::empty();
    let atom = PathReturnView::Atom(RichAtomView { subject, property: prop, value, native_value: nv });
    assert(spec_is_url(property_url));
    assert(path_walk(f, store, subject, rv, atom, e) == PathOutcome::Ends(Ok(atom)));
    assert(seq![property_url][0] == property_url);
    assert(path_walk(f, store, subject, rv, PathReturnView::Subject(subject), seq![property_url]) == PathOutcome::Ends(Ok(atom)));
    let items = split_on(subject + seq![' '] + property_url, ' ');
    assert(items[0] == subject && items.len() == 2);
}

/// Following `subject property i`, where the property's value on the
/// subject is a JSON array of strings, ends in the resource at the array's
/// `i`-th URL, counting from 0 and written in decimal.
pub proof fn law_path_index(
    f: FetchFn,
    store: StoreView,
    subject: Seq<char>,
    property_url: Seq<char>,
    rv: ResourceView,
    value: Seq<char>,
    prop: PropertyView,
    list: Seq<Seq<char>>,
    i: u32,
)
    requires
        !subject.contains(' '),
        !property_url.contains(' '),
        property_url.len() >= 4 && property_url[0] == 'h' && property_url[1] == 't' && property_url[2] == 't' && property_url[3] == 'p',
        answer(f, store, subject) == Ok::<ResourceView, crate::errors::ErrorView>(rv),
        lookup(rv, property_url) == Some(value),
        spec_get_property(f, store, property_url) == Ok::<PropertyView, crate::errors::ErrorView>(prop),
        spec_value_new(value, prop.data_type) is Ok,
        json_string_array(value) == Some(list),
        i < list.len(),
        answer(f, store, list[i as int]) is Ok,
    ensures
        spec_get_path(f, store, subject + seq![' '] + property_url + seq![' '] + crate::numbers::decimal_digits(i as nat), None)
            == PathOutcome::Ends(Ok(PathReturnView::Subject(list[i as int]))),
{
    let k = crate::numbers::decimal_digits(i as nat);
    crate::numbers::lemma_decimal_digits(i as nat);
    assert(!k.contains(' ')) by {
        if k.contains(' ') {
            let j = choose|j: int| 0 <= j < k.len() && k[j] == ' ';
            assert(crate::numbers::is_digit(k[j]));
        }
    }
    lemma_three_items(subject, property_url, k);
    assert(!crate::numbers::is_digit(property_url[0]));
    assert(spec_parse_u32(property_url) is None);
    assert(crate::numbers::is_digit(k[0]));
    assert(spec_parse_u32(k) == Some(i));
    assert(seq![subject, property_url, k].drop_first() =~= seq![property_url, k]);
    assert(seq![property_url, k].drop_first() =~= seq![k]);
    assert(seq![k].drop_first() =~= Seq::<Seq<char>>::empty());
    assert(prop.subject == property_url);
    let e = Seq::<Seq<char>>::empty();
    let url = list[i as int];
    let next = answer(f, store, url)->Ok_0;
    let nv = spec_value_new(value, prop.data_type)->Ok_0;
    let atom = RichAtomView { subject, property: prop, value, native_value: nv };
    assert(path_walk(f, store, url, next, PathReturnView::Subject(url), e) == PathOutcome::Ends(Ok(PathReturnView::Subject(url))));
    assert(seq![k][0] == k);
    assert(path_walk(f, store, subject, rv, PathReturnView::Atom(atom), seq![k]) == PathOutcome::Ends(Ok(PathReturnView::Subject(url))));
    assert(spec_is_url(property_url));
    assert(seq![property_url, k][0] == property_url);
    assert(path_walk(f, store, subject, rv, PathReturnView::Subject(subject), seq![property_url, k]) == PathOutcome::Ends(Ok(PathReturnView::Subject(url))));
    let items = split_on(subject + seq![' '] + property_url + seq![' '] + k, ' ');
    assert(items[0] == subject && items.len() == 3);
}

proof fn lemma_classes(f: FetchFn, store: StoreView, list: Seq<Seq<char>>)
    ensures
        crate::storelike::spec_classes(f, store, list) matches Some(cs) ==> (cs.len() == list.len()
            && forall|i: int| 0 <= i < list.len() ==> #[trigger] spec_get_class(f, store, list[i]) == Some(cs[i])),
    decreases list.len(),
{
    if list.len() > 0 {
        let d = list.drop_last();
        lemma_classes(f, store, d);
        if let Some(cs) = crate::storelike::spec_classes(f, store, list) {
            let cd = crate::storelike::spec_classes(f, store, d)->0;
            assert forall|i: int| 0 <= i < list.len() implies #[trigger] spec_get_class(f, store, list[i]) == Some(cs[i]) by {
                if i < d.len() {
                    assert(d[i] == list[i]);
                    assert(spec_get_class(f, store, d[i]) == Some(cd[i]));
                }
            }
        }
    }
}

/// The classes of a subject are the classes read from the URLs of its
/// `isA` array, in order; none where it has no `isA`.
pub proof fn law_classes_of_subject(f: FetchFn, store: StoreView, subject: Seq<char>)
    ensures
        crate::storelike::spec_classes_for_subject(f, store, subject) matches Some(Ok(cs)) ==> ({
            &&& answer(f, store, subject) is Ok
            &&& lookup(answer(f, store, subject)->Ok_0, urls::IS_A@) is None ==> cs.len() == 0
            &&& lookup(answer(f, store, subject)->Ok_0, urls::IS_A@) matches Some(t) ==> (json_string_array(t) is Some
                && json_string_array(t)->0.len() == cs.len()
                && forall|i: int| 0 <= i < cs.len() ==> #[trigger] spec_get_class(f, store, json_string_array(t)->0[i]) == Some(cs[i]))
        }),
{
    if let Ok(rv) = answer(f, store, subject) {
        if let Some(t) = lookup(rv, urls::IS_A@) {
            if let Some(list) = json_string_array(t) {
                lemma_classes(f, store, list);
            }
        }
    }
}

/// An index right after a subject is refused (`IndexOnResource`), and a
/// second property name after a property's value is refused
/// (`NoMoreLinkedResources`): only arrays can be indexed and only resources
/// have properties.
pub proof fn law_path_errors(
    f: FetchFn,
    store: StoreView,
    subject: Seq<char>,
    property_url: Seq<char>,
    next: Seq<char>,
    rv: ResourceView,
    value: Seq<char>,
    prop: PropertyView,
    nv: crate::values::NativeValueView,
    i: u32,
)
    requires
        !subject.contains(' '),
        !property_url.contains(' '),
        property_url.len() >= 4 && property_url[0] == 'h' && property_url[1] == 't' && property_url[2] == 't' && property_url[3] == 'p',
        !next.contains(' '),
        next.len() > 0 && !('0' <= next[0] && next[0] <= '9') && next[0] != '+',
        answer(f, store, subject) == Ok::<ResourceView, crate::errors::ErrorView>(rv),
    ensures
        spec_get_path(f, store, subject + seq![' '] + crate::numbers::decimal_digits(i as nat), None)
            == PathOutcome::Ends(Err(crate::errors::ErrorView::IndexOnResource)),
        lookup(rv, property_url) == Some(value)
            && spec_get_property(f, store, property_url) == Ok::<PropertyView, crate::errors::ErrorView>(prop)
            && spec_value_new(value, prop.data_type) == Ok::<crate::values::NativeValueView, crate::errors::ErrorView>(nv)
            ==> spec_get_path(f, store, subject + seq![' '] + property_url + seq![' '] + next, None)
                == PathOutcome::Ends(Err(crate::errors::ErrorView::NoMoreLinkedResources)),
{
    let k = crate::numbers::decimal_digits(i as nat);
    crate::numbers::lemma_decimal_digits(i as nat);
    assert(!k.contains(' ')) by {
        if k.contains(' ') {
            let j = choose|j: int| 0 <= j < k.len() && k[j] == ' ';
            assert(crate::numbers::is_digit(k[j]));
        }
    }
    lemma_three_items(subject, k, seq!['x']);
    assert(crate::numbers::is_digit(k[0]));
    assert(spec_parse_u32(k) == Some(i));
    assert(seq![subject, k].drop_first() =~= seq![k]);
    assert(seq![k][0] == k);
    assert(path_walk(f, store, subject, rv, PathReturnView::Subject(subject), seq![k])
        == PathOutcome::Ends(Err(crate::errors::ErrorView::IndexOnResource)));
    let items = split_on(subject + seq![' '] + k, ' ');
    assert(items[0] == subject && items.len() == 2);
    lemma_three_items(subject, property_url, next);
    assert(!crate::numbers::is_digit(property_url[0]));
    assert(spec_parse_u32(property_url) is None);
    assert(!crate::numbers::is_digit(next[0]));
    assert(spec_parse_u32(next) is None);
    if lookup(rv, property_url) == Some(value)
        && spec_get_property(f, store, property_url) == Ok::<PropertyView, crate::errors::ErrorView>(prop)
        && spec_value_new(value, prop.data_type) == Ok::<crate::values::NativeValueView, crate::errors::ErrorView>(nv) {
        let atom = PathReturnView::Atom(RichAtomView { subject, property: prop, value, native_value: nv });
        assert(seq![next][0] == next);
        assert(path_walk(f, store, subject, rv, atom, seq![next]) == PathOutcome::Ends(Err(crate::errors::ErrorView::NoMoreLinkedResources)));
        assert(spec_is_url(property_url));
        assert(seq![property_url, next][0] == property_url);
        assert(seq![property_url, next].drop_first() =~= seq![next]);
        assert(path_walk(f, store, subject, rv, PathReturnView::Subject(subject), seq![property_url, next])
            == PathOutcome::Ends(Err(crate::errors::ErrorView::NoMoreLinkedResources)));
        assert(seq![subject, property_url, next].drop_first() =~= seq![property_url, next]);
        let items3 = split_on(subject + seq![' '] + property_url + seq![' '] + next, ' ');
        assert(items3[0] == subject && items3.len() == 3);
    }
}

/// A property may be named by its shortname instead of its URL: where the
/// shortname names `url` among the subject's properties, following
/// `subject shortname` ends as following `subject url`.
pub proof fn law_path_shortname(
    f: FetchFn,
    store: StoreView,
    subject: Seq<char>,
    name: Seq<char>,
    url: Seq<char>,
    rv: ResourceView,
)
    requires
        !subject.contains(' '),
        !name.contains(' '),
        !url.contains(' '),
        url.len() >= 4 && url[0] == 'h' && url[1] == 't' && url[2] == 't' && url[3] == 'p',
        name.len() > 0 && !('0' <= name[0] && name[0] <= '9') && name[0] != '+',
        !(name.len() >= 4 && name[0] == 'h' && name[1] == 't' && name[2] == 't' && name[3] == 'p'),
        answer(f, store, subject) == Ok::<ResourceView, crate::errors::ErrorView>(rv),
        spec_shortname_to_url(f, store, name, rv_keys(rv)) == Ok::<Seq<char>, crate::errors::ErrorView>(url),
    ensures
        spec_get_path(f, store, subject + seq![' '] + name, None) == spec_get_path(f, store, subject + seq![' '] + url, None),
{
    lemma_three_items(subject, name, seq!['x']);
    lemma_three_items(subject, url, seq!['x']);
    assert(!crate::numbers::is_digit(name[0]));
    assert(spec_parse_u32(name) is None);
    assert(!crate::numbers::is_digit(url[0]));
    assert(spec_parse_u32(url) is None);
    assert(!spec_is_url(name));
    assert(spec_is_url(url));
    assert(seq![subject, name].drop_first() =~= seq![name]);
    assert(seq![subject, url].drop_first() =~= seq![url]);
    assert(seq![name][0] == name);
    assert(seq![url][0] == url);
    assert(seq![name].drop_first() =~= seq![url].drop_first());
    assert(path_walk(f, store, subject, rv, PathReturnView::Subject(subject), seq![name])
        == path_walk(f, store, subject, rv, PathReturnView::Subject(subject), seq![url]));
    let a = split_on(subject + seq![' '] + name, ' ');
    let b = split_on(subject + seq![' '] + url, ' ');
    assert(a[0] == subject && a.len() == 2 && b[0] == subject && b.len() == 2);
}

/// How read values are written in JSON: integers and timestamps as
/// numbers, resource arrays as arrays of strings, every other value as the
/// string it holds.
pub proof fn law_json_values(n: i64, text: Seq<char>, list: Seq<Seq<char>>, datatype: Seq<char>)
    ensures
        crate::storelike::value_json(crate::values::NativeValueView::Integer(n)) == JsonScalarView::Num(n),
        crate::storelike::value_json(crate::values::NativeValueView::Timestamp(n)) == JsonScalarView::Num(n),
        crate::storelike::value_json(crate::values::NativeValueView::ResourceArray(list)) == JsonScalarView::StrArray(list),
        crate::storelike::value_json(crate::values::NativeValueView::AtomicUrl(text)) == JsonScalarView::Str(text),
        crate::storelike::value_json(crate::values::NativeValueView::Date(text)) == JsonScalarView::Str(text),
        crate::storelike::value_json(crate::values::NativeValueView::Markdown(text)) == JsonScalarView::Str(text),
        crate::storelike::value_json(crate::values::NativeValueView::Slug(text)) == JsonScalarView::Str(text),
        crate::storelike::value_json(crate::values::NativeValueView::String(text)) == JsonScalarView::Str(text),
        crate::storelike::value_json(crate::values::NativeValueView::Unsupported(text, datatype)) == JsonScalarView::Str(text),
{
}

/// A property is read from its resource: it can be read exactly where the
/// resource has a datatype, a shortname and a description, and then its
/// shortname, description and class type are the resource's, its subject is
/// its URL, and its datatype is the one its datatype URL names.
pub proof fn law_property_reads_its_resource(f: FetchFn, store: StoreView, url: Seq<char>)
    ensures
        (spec_get_property(f, store, url) is Ok) == (answer(f, store, url) is Ok && {
            let rv = answer(f, store, url)->Ok_0;
            lookup(rv, urls::DATATYPE_PROP@) is Some && lookup(rv, urls::SHORTNAME@) is Some && lookup(rv, urls::DESCRIPTION@) is Some
        }),
        spec_get_property(f, store, url) matches Ok(p) ==> ({
            let rv = answer(f, store, url)->Ok_0;
            &&& p.subject == url
            &&& lookup(rv, urls::SHORTNAME@) == Some(p.shortname)
            &&& lookup(rv, urls::DESCRIPTION@) == Some(p.description)
            &&& p.class_type == lookup(rv, urls::CLASSTYPE_PROP@)
            &&& p.data_type == spec_match_datatype(lookup(rv, urls::DATATYPE_PROP@)->0)
        }),
{
}

} // verus!
