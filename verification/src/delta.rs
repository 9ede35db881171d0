use vstd::prelude::*;

verus! {

/// One change in a delta: a method applied to a property and value.
#[derive(Debug, PartialEq, Eq)]
pub struct DeltaLine {
    /// `insert` or `delete`, by name or by URL.
    pub method: String,
    pub property: String,
    pub value: String,
}

/// A list of changes to the resource of one subject.
#[derive(Debug, PartialEq, Eq)]
pub struct Delta {
    pub subject: String,
    pub lines: Vec<DeltaLine>,
}

/// The mathematical value of a [`DeltaLine`].
pub struct DeltaLineView {
    pub method: Seq<char>,
    pub property: Seq<char>,
    pub value: Seq<char>,
}

impl View for DeltaLine {
    type V = DeltaLineView;

    open spec fn view(&self) -> DeltaLineView {
        DeltaLineView { method: self.method@, property: self.property@, value: self.value@ }
    }
}

/// The views of the lines of a delta.
pub open spec fn lines_view(lines: Seq<DeltaLine>) -> Seq<DeltaLineView> {
    lines.map_values(|l: DeltaLine| l@)
}

} // verus!
