//! Shortnames that a user maps to URLs.
use vstd::prelude::*;
use crate::resource::{ResourceString, ResourceView, lookup};
use crate::text::chars_of;

verus! {

/// The string names a URL: it starts with `http`.
pub open spec fn spec_is_url(s: Seq<char>) -> bool {
    s.len() >= 4 && s[0] == 'h' && s[1] == 't' && s[2] == 't' && s[3] == 'p'
}

/// Whether `s` names a URL rather than a shortname.
pub fn is_url(s: &str) -> (b: bool)
    ensures
        b == spec_is_url(s@),
{
    let c = chars_of(s);
    c.len() >= 4 && c[0] == 'h' && c[1] == 't' && c[2] == 't' && c[3] == 'p'
}

/// A user's shortnames, each mapped to a URL.
pub struct Mapping {
    map: ResourceString,
}

impl View for Mapping {
    type V = ResourceView;

    closed spec fn view(&self) -> ResourceView {
        self.map@
    }
}

/// The URL that `s` stands for: its mapping, or `s` itself where it is a URL.
pub open spec fn spec_try_mapping_or_url(m: ResourceView, s: Seq<char>) -> Option<Seq<char>> {
    match lookup(m, s) {
        Some(url) => Some(url),
        None => if spec_is_url(s) {
            Some(s)
        } else {
            None
        },
    }
}

impl Mapping {
    /// A mapping without shortnames.
    pub fn init() -> (m: Mapping)
        ensures
            m@ == Seq::<(Seq<char>, Seq<char>)>::empty(),
    {
        Mapping { map: ResourceString::new() }
    }

    /// Maps `shortname` to `url`, replacing an earlier mapping of it.
    pub fn insert(&mut self, shortname: String, url: String)
        ensures
            final(self)@ == crate::resource::rv_insert(old(self)@, shortname@, url@),
    {
        self.map.insert(shortname, url);
    }

    /// The URL that `shortname` is mapped to.
    pub fn get(&self, shortname: &str) -> (r: Option<&String>)
        ensures
            match r {
                Some(u) => lookup(self@, shortname@) == Some(u@),
                None => lookup(self@, shortname@) is None,
            },
    {
        self.map.get(shortname)
    }

    /// The URL that `mapping_or_url` stands for: its mapping where it has
    /// one, else itself where it is a URL.
    pub fn try_mapping_or_url(&self, mapping_or_url: &str) -> (r: Option<String>)
        ensures
            match r {
                Some(u) => spec_try_mapping_or_url(self@, mapping_or_url@) == Some(u@),
                None => spec_try_mapping_or_url(self@, mapping_or_url@) is None,
            },
    {
        match self.map.get(mapping_or_url) {
            Some(url) => Some(url.clone()),
            None => if is_url(mapping_or_url) {
                Some(mapping_or_url.to_owned())
            } else {
                None
            },
        }
    }
}

} // verus!
