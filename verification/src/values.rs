use vstd::prelude::*;
use crate::datatype::{DataType, DataTypeView};
use crate::errors::{AtomicError, ErrorView};
use crate::json::{json_string_array, parse_json_array};
use crate::numbers::{parse_i64, spec_parse_i64};
use crate::urls;

verus! {

/// A value whose datatype this library does not know.
#[derive(Debug, PartialEq, Eq)]
pub struct UnsupportedValue {
    pub value: String,
    /// The URL of the datatype.
    pub datatype: String,
}

/// A value read according to the datatype of its property.
#[derive(Debug, PartialEq, Eq)]
pub enum NativeValue {
    AtomicUrl(String),
    Date(String),
    Integer(i64),
    Markdown(String),
    ResourceArray(Vec<String>),
    Slug(String),
    String(String),
    Timestamp(i64),
    Unsupported(UnsupportedValue),
}

/// The mathematical value of a [`NativeValue`].
pub enum NativeValueView {
    AtomicUrl(Seq<char>),
    Date(Seq<char>),
    Integer(i64),
    Markdown(Seq<char>),
    ResourceArray(Seq<Seq<char>>),
    Slug(Seq<char>),
    String(Seq<char>),
    Timestamp(i64),
    Unsupported(Seq<char>, Seq<char>),
}

impl View for NativeValue {
    type V = NativeValueView;

    open spec fn view(&self) -> NativeValueView {
        match self {
            NativeValue::AtomicUrl(s) => NativeValueView::AtomicUrl(s@),
            NativeValue::Date(s) => NativeValueView::Date(s@),
            NativeValue::Integer(n) => NativeValueView::Integer(*n),
            NativeValue::Markdown(s) => NativeValueView::Markdown(s@),
            NativeValue::ResourceArray(v) => NativeValueView::ResourceArray(v@.map_values(|s: String| s@)),
            NativeValue::Slug(s) => NativeValueView::Slug(s@),
            NativeValue::String(s) => NativeValueView::String(s@),
            NativeValue::Timestamp(n) => NativeValueView::Timestamp(*n),
            NativeValue::Unsupported(u) => NativeValueView::Unsupported(u.value@, u.datatype@),
        }
    }
}

/// What reading `value` as a value of datatype `d` gives: integers and
/// timestamps are decimal `i64`s, resource arrays are JSON arrays of strings,
/// every other datatype takes the text as it is.
pub open spec fn spec_value_new(value: Seq<char>, d: DataTypeView) -> Result<NativeValueView, ErrorView> {
    match d {
        DataTypeView::Integer => match spec_parse_i64(value) {
            Some(n) => Ok(NativeValueView::Integer(n)),
            None => Err(ErrorView::InvalidValue(value, urls::INTEGER@)),
        },
        DataTypeView::Timestamp => match spec_parse_i64(value) {
            Some(n) => Ok(NativeValueView::Timestamp(n)),
            None => Err(ErrorView::InvalidValue(value, urls::TIMESTAMP@)),
        },
        DataTypeView::ResourceArray => match json_string_array(value) {
            Some(v) => Ok(NativeValueView::ResourceArray(v)),
            None => Err(ErrorView::InvalidValue(value, urls::RESOURCE_ARRAY@)),
        },
        DataTypeView::AtomicUrl => Ok(NativeValueView::AtomicUrl(value)),
        DataTypeView::Date => Ok(NativeValueView::Date(value)),
        DataTypeView::Markdown => Ok(NativeValueView::Markdown(value)),
        DataTypeView::Slug => Ok(NativeValueView::Slug(value)),
        DataTypeView::String => Ok(NativeValueView::String(value)),
        DataTypeView::Unsupported(u) => Ok(NativeValueView::Unsupported(value, u)),
    }
}

/// The view of a result that holds a value.
pub open spec fn value_result_view(r: Result<NativeValue, AtomicError>) -> Result<NativeValueView, ErrorView> {
    match r {
        Ok(v) => Ok(v@),
        Err(e) => Err(e@),
    }
}

impl NativeValue {
    /// Reads `value` according to `datatype`.
    pub fn new(value: &str, datatype: &DataType) -> (r: Result<NativeValue, AtomicError>)
        ensures
            value_result_view(r) == spec_value_new(value@, datatype@),
    {
        match datatype {
            DataType::Integer => match parse_i64(value) {
                Some(n) => Ok(NativeValue::Integer(n)),
                None => Err(AtomicError::InvalidValue(value.to_owned(), urls::INTEGER.to_owned())),
            },
            DataType::Timestamp => match parse_i64(value) {
                Some(n) => Ok(NativeValue::Timestamp(n)),
                None => Err(AtomicError::InvalidValue(value.to_owned(), urls::TIMESTAMP.to_owned())),
            },
            DataType::ResourceArray => match parse_json_array(value) {
                Ok(v) => Ok(NativeValue::ResourceArray(v)),
                Err(_) => Err(AtomicError::InvalidValue(value.to_owned(), urls::RESOURCE_ARRAY.to_owned())),
            },
            DataType::AtomicUrl => Ok(NativeValue::AtomicUrl(value.to_owned())),
            DataType::Date => Ok(NativeValue::Date(value.to_owned())),
            DataType::Markdown => Ok(NativeValue::Markdown(value.to_owned())),
            DataType::Slug => Ok(NativeValue::Slug(value.to_owned())),
            DataType::String => Ok(NativeValue::String(value.to_owned())),
            DataType::Unsupported(u) => Ok(NativeValue::Unsupported(UnsupportedValue { value: value.to_owned(), datatype: u.clone() })),
        }
    }
}

} // verus!
