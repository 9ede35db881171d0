use vstd::prelude::*;
use crate::text::str_eq;
use crate::urls;

verus! {

/// The datatype of a property's values.
#[derive(Debug, PartialEq, Eq)]
pub enum DataType {
    AtomicUrl,
    Date,
    Integer,
    Markdown,
    ResourceArray,
    Slug,
    String,
    Timestamp,
    /// A datatype this library does not know, by its URL.
    Unsupported(String),
}

/// The mathematical value of a [`DataType`].
pub enum DataTypeView {
    AtomicUrl,
    Date,
    Integer,
    Markdown,
    ResourceArray,
    Slug,
    String,
    Timestamp,
    Unsupported(Seq<char>),
}

impl View for DataType {
    type V = DataTypeView;

    open spec fn view(&self) -> DataTypeView {
        match self {
            DataType::AtomicUrl => DataTypeView::AtomicUrl,
            DataType::Date => DataTypeView::Date,
            DataType::Integer => DataTypeView::Integer,
            DataType::Markdown => DataTypeView::Markdown,
            DataType::ResourceArray => DataTypeView::ResourceArray,
            DataType::Slug => DataTypeView::Slug,
            DataType::String => DataTypeView::String,
            DataType::Timestamp => DataTypeView::Timestamp,
            DataType::Unsupported(s) => DataTypeView::Unsupported(s@),
        }
    }
}

/// The datatype that a datatype URL names.
pub open spec fn spec_match_datatype(url: Seq<char>) -> DataTypeView {
    if url == urls::ATOMIC_URL@ {
        DataTypeView::AtomicUrl
    } else if url == urls::DATE@ {
        DataTypeView::Date
    } else if url == urls::INTEGER@ {
        DataTypeView::Integer
    } else if url == urls::MARKDOWN@ {
        DataTypeView::Markdown
    } else if url == urls::RESOURCE_ARRAY@ {
        DataTypeView::ResourceArray
    } else if url == urls::SLUG@ {
        DataTypeView::Slug
    } else if url == urls::STRING@ {
        DataTypeView::String
    } else if url == urls::TIMESTAMP@ {
        DataTypeView::Timestamp
    } else {
        DataTypeView::Unsupported(url)
    }
}

/// The datatype that a datatype URL names; an unknown URL gives `Unsupported`.
pub fn match_datatype(url: &str) -> (d: DataType)
    ensures
        d@ == spec_match_datatype(url@),
{
    if str_eq(url, urls::ATOMIC_URL) {
        DataType::AtomicUrl
    } else if str_eq(url, urls::DATE) {
        DataType::Date
    } else if str_eq(url, urls::INTEGER) {
        DataType::Integer
    } else if str_eq(url, urls::MARKDOWN) {
        DataType::Markdown
    } else if str_eq(url, urls::RESOURCE_ARRAY) {
        DataType::ResourceArray
    } else if str_eq(url, urls::SLUG) {
        DataType::Slug
    } else if str_eq(url, urls::STRING) {
        DataType::String
    } else if str_eq(url, urls::TIMESTAMP) {
        DataType::Timestamp
    } else {
        DataType::Unsupported(url.to_owned())
    }
}

} // verus!
