use vstd::prelude::*;

verus! {

/// A triple pattern: any of subject, property and value may be left open.
#[derive(Debug, PartialEq, Eq)]
pub struct TPFQuery {
    pub subject: Option<String>,
    pub property: Option<String>,
    pub value: Option<String>,
}

/// One page of a collection: the subjects on it.
#[derive(Debug, PartialEq, Eq)]
pub struct Page {
    pub members: Vec<String>,
}

/// A paginated list of the subjects that match a triple pattern.
#[derive(Debug, PartialEq, Eq)]
pub struct Collection {
    pub tpf: TPFQuery,
    pub total_pages: u8,
    pub pages: Vec<Page>,
    pub sort_by: String,
    pub sort_desc: bool,
    pub current_page: u8,
    pub total_items: u8,
    pub page_size: u8,
}

/// The views of a list of strings.
pub open spec fn strings_view(v: Seq<String>) -> Seq<Seq<char>> {
    v.map_values(|s: String| s@)
}

/// The view of an optional string.
pub open spec fn opt_string_view(o: Option<String>) -> Option<Seq<char>> {
    match o {
        Some(s) => Some(s@),
        None => None,
    }
}

/// An optional string as a string slice.
pub fn opt_as_str(o: &Option<String>) -> (r: Option<&str>)
    ensures
        crate::query::opt_str_view(r) == opt_string_view(*o),
{
    match o {
        Some(s) => Some(s.as_str()),
        None => None,
    }
}

} // verus!
