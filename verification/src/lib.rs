//! A verified core for Atomic Data stores: resources as property/value
//! lists, the `Storelike` interface with its provided queries, and the
//! parsers and serialisers those queries rely on.

pub mod errors;
pub mod resource;
pub mod text;
pub mod numbers;
pub mod json;
pub mod urls;
pub mod datatype;
pub mod atom;
pub mod values;
pub mod resources;
pub mod collections;
pub mod delta;
pub mod mapping;
pub mod query;
pub mod sorting;
pub mod storelike;
pub mod parse;
pub mod client;
pub mod store;
pub mod laws;

pub use atom::Atom;
pub use client::resource_from_atoms;
pub use collections::{Collection, Page, TPFQuery};
pub use datatype::{DataType, match_datatype};
pub use delta::{Delta, DeltaLine};
pub use errors::{AtomicError, AtomicResult};
pub use mapping::{Mapping, is_url};
pub use parse::parse_ad3;
pub use resource::ResourceString;
pub use resources::Resource;
pub use storelike::{Class, PathReturn, Property, RichAtom, Storelike};
pub use store::Store;
pub use values::NativeValue;
