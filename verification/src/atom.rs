use vstd::prelude::*;

verus! {

/// One statement of Atomic Data: a subject, a property and a value.
#[derive(Debug, PartialEq, Eq)]
pub struct Atom {
    pub subject: String,
    pub property: String,
    pub value: String,
}

impl View for Atom {
    type V = (Seq<char>, Seq<char>, Seq<char>);

    open spec fn view(&self) -> (Seq<char>, Seq<char>, Seq<char>) {
        (self.subject@, self.property@, self.value@)
    }
}

impl Atom {
    /// An atom from its three parts.
    pub fn new(subject: String, property: String, value: String) -> (a: Atom)
        ensures
            a@ == (subject@, property@, value@),
    {
        Atom { subject, property, value }
    }
}

/// The views of a list of atoms.
pub open spec fn atoms_view(atoms: Seq<Atom>) -> Seq<(Seq<char>, Seq<char>, Seq<char>)> {
    atoms.map_values(|a: Atom| a@)
}

} // verus!
