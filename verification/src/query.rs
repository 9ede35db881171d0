//! Triple pattern matching over resources.
use vstd::prelude::*;
use crate::atom::{Atom, atoms_view};
use crate::json::{json_string_array, parse_json_array};
use crate::resource::{ResourceString, ResourceView, rv_atoms};
use crate::text::{chars_of, str_eq};

verus! {

/// The view of an optional string slice.
pub open spec fn opt_str_view(o: Option<&str>) -> Option<Seq<char>> {
    match o {
        Some(s) => Some(s@),
        None => None,
    }
}

/// `val` equals the queried value, or is a JSON array of strings that holds it.
pub open spec fn val_matches(val: Seq<char>, q: Seq<char>) -> bool {
    ||| val == q
    ||| val.len() > 0 && val[0] == '[' && match json_string_array(val) {
        Some(items) => items.contains(q),
        None => false,
    }
}

/// Whether the pair `(prop, val)` answers a query: its property is the
/// queried one, where a property is queried, and its value matches, where a
/// value is queried.
pub open spec fn atom_matches(prop: Seq<char>, val: Seq<char>, qp: Option<Seq<char>>, qv: Option<Seq<char>>) -> bool {
    &&& qp matches Some(p) ==> p == prop
    &&& qv matches Some(v) ==> val_matches(val, v)
}

/// The atoms of a resource that answer a query, in the resource's order.
pub open spec fn matching_atoms(
    subject: Seq<char>,
    rv: ResourceView,
    qp: Option<Seq<char>>,
    qv: Option<Seq<char>>,
) -> Seq<(Seq<char>, Seq<char>, Seq<char>)>
    decreases rv.len(),
{
    if rv.len() == 0 {
        Seq::empty()
    } else {
        let prev = matching_atoms(subject, rv.drop_last(), qp, qv);
        if atom_matches(rv.last().0, rv.last().1, qp, qv) {
            prev.push((subject, rv.last().0, rv.last().1))
        } else {
            prev
        }
    }
}

/// The atoms of a list of resources that answer a query, resource by resource.
pub open spec fn collection_matches(
    c: Seq<(Seq<char>, ResourceView)>,
    qp: Option<Seq<char>>,
    qv: Option<Seq<char>>,
) -> Seq<(Seq<char>, Seq<char>, Seq<char>)>
    decreases c.len(),
{
    if c.len() == 0 {
        Seq::empty()
    } else {
        collection_matches(c.drop_last(), qp, qv) + matching_atoms(c.last().0, c.last().1, qp, qv)
    }
}

/// All atoms of a list of resources, resource by resource.
pub open spec fn collection_atoms(c: Seq<(Seq<char>, ResourceView)>) -> Seq<(Seq<char>, Seq<char>, Seq<char>)>
    decreases c.len(),
{
    if c.len() == 0 {
        Seq::empty()
    } else {
        collection_atoms(c.drop_last()) + rv_atoms(c.last().0, c.last().1)
    }
}

/// Whether `items` holds `q`.
fn contains_str(items: &Vec<String>, q: &str) -> (b: bool)
    ensures
        b == items@.map_values(|s: String| s@).contains(q@),
{
    let ghost iv = items@.map_values(|s: String| s@);
    let n = items.len();
    let mut i: usize = 0;
    while i < n
        invariant
            n == items@.len(),
            iv == items@.map_values(|s: String| s@),
            i <= n,
            forall|j: int| 0 <= j < i ==> iv[j] != q@,
        decreases n - i,
    {
        if str_eq(items[i].as_str(), q) {
            assert(iv[i as int] == q@);
            return true;
        }
        i = i + 1;
    }
    false
}

/// Whether `val` matches the queried value `q`.
pub fn val_equals(val: &str, q: &str) -> (b: bool)
    ensures
        b == val_matches(val@, q@),
{
    if str_eq(val, q) {
        return true;
    }
    let chars = chars_of(val);
    if chars.len() > 0 && chars[0] == '[' {
        match parse_json_array(val) {
            Ok(items) => contains_str(&items, q),
            Err(_) => false,
        }
    } else {
        false
    }
}

/// Appends to `out` the atoms of `resource` about `subject` that answer the query.
pub fn find_in_resource(
    out: &mut Vec<Atom>,
    subject: &str,
    resource: &ResourceString,
    qp: Option<&str>,
    qv: Option<&str>,
)
    ensures
        atoms_view(final(out)@) == atoms_view(old(out)@) + matching_atoms(subject@, resource@, opt_str_view(qp), opt_str_view(qv)),
{
    let ghost start = atoms_view(out@);
    let n = resource.len();
    let mut i: usize = 0;
    while i < n
        invariant
            n == resource@.len(),
            i <= n,
            atoms_view(out@) == start + matching_atoms(subject@, resource@.take(i as int), opt_str_view(qp), opt_str_view(qv)),
        decreases n - i,
    {
        let (prop, val) = resource.entry(i);
        let ghost t = resource@.take(i + 1);
        assert(t.drop_last() =~= resource@.take(i as int));
        assert(t.last() == resource@[i as int]);
        let ghost before = atoms_view(out@);
        let prop_ok = match qp {
            Some(p) => str_eq(p, prop.as_str()),
            None => true,
        };
        let hit = prop_ok && match qv {
            Some(v) => val_equals(val.as_str(), v),
            None => true,
        };
        if hit {
            let a = Atom::new(subject.to_owned(), prop.clone(), val.clone());
            out.push(a);
            assert(atoms_view(out@) =~= before.push(a@));
        }
        i = i + 1;
    }
    assert(resource@.take(n as int) =~= resource@);
}

/// Appends to `out` every atom of `resource` about `subject`.
pub fn push_all_atoms(out: &mut Vec<Atom>, subject: &str, resource: &ResourceString)
    ensures
        atoms_view(final(out)@) == atoms_view(old(out)@) + rv_atoms(subject@, resource@),
{
    let ghost start = atoms_view(out@);
    let n = resource.len();
    let mut i: usize = 0;
    while i < n
        invariant
            n == resource@.len(),
            i <= n,
            atoms_view(out@) =~= start + rv_atoms(subject@, resource@.take(i as int)),
        decreases n - i,
    {
        let (prop, val) = resource.entry(i);
        let ghost before = atoms_view(out@);
        let a = Atom::new(subject.to_owned(), prop.clone(), val.clone());
        out.push(a);
        assert(atoms_view(out@) =~= before.push(a@));
        assert(rv_atoms(subject@, resource@.take(i + 1)) =~= rv_atoms(subject@, resource@.take(i as int)).push(a@));
        i = i + 1;
    }
    assert(resource@.take(n as int) =~= resource@);
}

} // verus!
