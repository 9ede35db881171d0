//! The URLs of the properties, datatypes and methods that the store logic reads.
use vstd::prelude::*;

verus! {

pub const SHORTNAME: &'static str = "https://atomicdata.dev/properties/shortname";
pub const DESCRIPTION: &'static str = "https://atomicdata.dev/properties/description";
pub const DATATYPE_PROP: &'static str = "https://atomicdata.dev/properties/datatype";
pub const CLASSTYPE_PROP: &'static str = "https://atomicdata.dev/properties/classtype";
pub const IS_A: &'static str = "https://atomicdata.dev/properties/isA";
pub const REQUIRES: &'static str = "https://atomicdata.dev/properties/requires";
pub const RECOMMENDS: &'static str = "https://atomicdata.dev/properties/recommends";

pub const INSERT: &'static str = "https://atomicdata.dev/methods/insert";
pub const DELETE: &'static str = "https://atomicdata.dev/methods/delete";

pub const ATOMIC_URL: &'static str = "https://atomicdata.dev/datatypes/atomicURL";
pub const DATE: &'static str = "https://atomicdata.dev/datatypes/date";
pub const INTEGER: &'static str = "https://atomicdata.dev/datatypes/integer";
pub const MARKDOWN: &'static str = "https://atomicdata.dev/datatypes/markdown";
pub const RESOURCE_ARRAY: &'static str = "https://atomicdata.dev/datatypes/resourceArray";
pub const SLUG: &'static str = "https://atomicdata.dev/datatypes/slug";
pub const STRING: &'static str = "https://atomicdata.dev/datatypes/string";
pub const TIMESTAMP: &'static str = "https://atomicdata.dev/datatypes/timestamp";

} // verus!
