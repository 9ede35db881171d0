use vstd::prelude::*;

verus! {

/// Why an operation on a store or on Atomic Data text failed.
#[derive(Debug, PartialEq, Eq)]
pub enum AtomicError {
    /// The store holds no resource with this subject.
    NotFound(String),
    /// The resource of this property has no datatype.
    DatatypeNotFound(String),
    /// The resource of this property has no shortname.
    ShortnameNotFound(String),
    /// The resource of this property has no description.
    DescriptionNotFound(String),
    /// No property of the resource has this shortname.
    ShortnameUnknown(String),
    /// A value does not fit the datatype of its property: the value, then the datatype URL.
    InvalidValue(String, String),
    /// A text that should be a JSON array of strings is not one.
    NotAJsonArray(String),
    /// serde_json could not serialise a value.
    Serialization,
    /// A line of AD3 text does not start with `[`, `#` or a space.
    Ad3UnexpectedLine(String),
    /// A line of AD3 text is an array whose length is not three.
    Ad3WrongLength(String),
    /// A fetched document held no atom about the requested subject.
    NoValidAtoms(String),
    /// The first item of a path is neither a URL nor a mapped shortname.
    NoMapping(String),
    /// A path indexes a resource rather than an array.
    IndexOnResource,
    /// A path goes on after a value that is not a resource.
    NoMoreLinkedResources,
    /// A path indexes an array that the resource does not hold.
    PropertyNotFound(String),
    /// A list of classes is not an array of resources.
    NotAnArray,
    /// An error reported by a store implementation.
    Store(String),
}

/// The mathematical value of an [`AtomicError`].
pub enum ErrorView {
    NotFound(Seq<char>),
    DatatypeNotFound(Seq<char>),
    ShortnameNotFound(Seq<char>),
    DescriptionNotFound(Seq<char>),
    ShortnameUnknown(Seq<char>),
    InvalidValue(Seq<char>, Seq<char>),
    NotAJsonArray(Seq<char>),
    Serialization,
    Ad3UnexpectedLine(Seq<char>),
    Ad3WrongLength(Seq<char>),
    NoValidAtoms(Seq<char>),
    NoMapping(Seq<char>),
    IndexOnResource,
    NoMoreLinkedResources,
    PropertyNotFound(Seq<char>),
    NotAnArray,
    Store(Seq<char>),
}

impl View for AtomicError {
    type V = ErrorView;

    open spec fn view(&self) -> ErrorView {
        match self {
            AtomicError::NotFound(s) => ErrorView::NotFound(s@),
            AtomicError::DatatypeNotFound(s) => ErrorView::DatatypeNotFound(s@),
            AtomicError::ShortnameNotFound(s) => ErrorView::ShortnameNotFound(s@),
            AtomicError::DescriptionNotFound(s) => ErrorView::DescriptionNotFound(s@),
            AtomicError::ShortnameUnknown(s) => ErrorView::ShortnameUnknown(s@),
            AtomicError::InvalidValue(v, d) => ErrorView::InvalidValue(v@, d@),
            AtomicError::NotAJsonArray(s) => ErrorView::NotAJsonArray(s@),
            AtomicError::Serialization => ErrorView::Serialization,
            AtomicError::Ad3UnexpectedLine(s) => ErrorView::Ad3UnexpectedLine(s@),
            AtomicError::Ad3WrongLength(s) => ErrorView::Ad3WrongLength(s@),
            AtomicError::NoValidAtoms(s) => ErrorView::NoValidAtoms(s@),
            AtomicError::NoMapping(s) => ErrorView::NoMapping(s@),
            AtomicError::IndexOnResource => ErrorView::IndexOnResource,
            AtomicError::NoMoreLinkedResources => ErrorView::NoMoreLinkedResources,
            AtomicError::PropertyNotFound(s) => ErrorView::PropertyNotFound(s@),
            AtomicError::NotAnArray => ErrorView::NotAnArray,
            AtomicError::Store(s) => ErrorView::Store(s@),
        }
    }
}

/// The result of most operations of this library.
pub type AtomicResult<T> = Result<T, AtomicError>;

/// A result taken by its views.
pub open spec fn res_view<T: View>(r: AtomicResult<T>) -> Result<T::V, ErrorView> {
    match r {
        Ok(v) => Ok(v@),
        Err(e) => Err(e@),
    }
}

} // verus!
