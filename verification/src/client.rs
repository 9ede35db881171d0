//! What a client does with the atoms it fetched.
use vstd::prelude::*;
use crate::atom::{Atom, atoms_view};
use crate::errors::{AtomicError, AtomicResult, ErrorView};
use crate::resource::{ResourceString, ResourceView, rv_insert};
use crate::text::str_eq;

verus! {

/// The resource that a list of atoms gives `subject`: each atom about it
/// sets its property, later atoms overwriting earlier ones.
pub open spec fn resource_of(subject: Seq<char>, atoms: Seq<(Seq<char>, Seq<char>, Seq<char>)>) -> ResourceView
    decreases atoms.len(),
{
    if atoms.len() == 0 {
        Seq::empty()
    } else {
        let prev = resource_of(subject, atoms.drop_last());
        if atoms.last().0 == subject {
            rv_insert(prev, atoms.last().1, atoms.last().2)
        } else {
            prev
        }
    }
}

/// The resource of `subject` in the fetched atoms; only atoms whose subject
/// matches count, and there must be at least one.
pub fn resource_from_atoms(subject: &str, atoms: Vec<Atom>) -> (r: AtomicResult<ResourceString>)
    ensures
        match r {
            Ok(res) => resource_of(subject@, atoms_view(atoms@)).len() > 0 && res@ == resource_of(subject@, atoms_view(atoms@)),
            Err(e) => resource_of(subject@, atoms_view(atoms@)).len() == 0 && e@ == ErrorView::NoValidAtoms(subject@),
        },
{
    let ghost av = atoms_view(atoms@);
    let mut resource = ResourceString::new();
    let n = atoms.len();
    let mut i: usize = 0;
    while i < n
        invariant
            n == atoms@.len(),
            av == atoms_view(atoms@),
            i <= n,
            resource@ == resource_of(subject@, av.take(i as int)),
        decreases n - i,
    {
        assert(av.take(i + 1).drop_last() =~= av.take(i as int));
        assert(av.take(i + 1).last() == atoms[i as int]@);
        let atom = &atoms[i];
        if str_eq(atom.subject.as_str(), subject) {
            resource.insert(atom.property.clone(), atom.value.clone());
        }
        i = i + 1;
    }
    assert(av.take(n as int) =~= av);
    if resource.is_empty() {
        return Err(AtomicError::NoValidAtoms(subject.to_owned()));
    }
    Ok(resource)
}

} // verus!
