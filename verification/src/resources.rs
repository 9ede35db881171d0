//! Resources whose values are read by the datatypes of their properties.
use vstd::prelude::*;
use crate::datatype::DataTypeView;
use crate::json::{json_array_text, json_strings_text};
use crate::numbers::{i64_text, lemma_i64_text_round_trip, spec_i64_text};
use crate::resource::{ResourceString, ResourceView, rv_insert};
use crate::values::{NativeValue, NativeValueView, spec_value_new};

verus! {

/// The values of a resource by property URL, in the order they were set.
pub type PropValsView = Seq<(Seq<char>, NativeValueView)>;

/// A resource: its subject and its values, each read by the datatype of
/// its property.
#[derive(Debug, PartialEq, Eq)]
pub struct Resource {
    pub subject: String,
    pub propvals: Vec<(String, NativeValue)>,
}

/// The property/value pairs, taken by their views.
pub open spec fn propvals_view(pv: Seq<(String, NativeValue)>) -> PropValsView {
    pv.map_values(|e: (String, NativeValue)| (e.0@, e.1@))
}

impl View for Resource {
    type V = (Seq<char>, PropValsView);

    open spec fn view(&self) -> (Seq<char>, PropValsView) {
        (self.subject@, propvals_view(self.propvals@))
    }
}

/// A value written back as text: integers and timestamps in decimal,
/// resource arrays as serde_json writes an array of strings, every other
/// value as the text it holds.
pub open spec fn spec_value_text(v: NativeValueView) -> Seq<char> {
    match v {
        NativeValueView::AtomicUrl(s) => s,
        NativeValueView::Date(s) => s,
        NativeValueView::Integer(n) => spec_i64_text(n),
        NativeValueView::Markdown(s) => s,
        NativeValueView::ResourceArray(items) => json_array_text(items),
        NativeValueView::Slug(s) => s,
        NativeValueView::String(s) => s,
        NativeValueView::Timestamp(n) => spec_i64_text(n),
        NativeValueView::Unsupported(value, _) => value,
    }
}

/// The plain resource of a list of values: each written as text and set in
/// turn, a later value of a property replacing an earlier one.
pub open spec fn plain_view(pv: PropValsView) -> ResourceView
    decreases pv.len(),
{
    if pv.len() == 0 {
        Seq::empty()
    } else {
        rv_insert(plain_view(pv.drop_last()), pv.last().0, spec_value_text(pv.last().1))
    }
}

/// A value is of the kind that datatype `d` reads.
pub open spec fn value_fits(v: NativeValueView, d: DataTypeView) -> bool {
    match (v, d) {
        (NativeValueView::AtomicUrl(_), DataTypeView::AtomicUrl) => true,
        (NativeValueView::Date(_), DataTypeView::Date) => true,
        (NativeValueView::Integer(_), DataTypeView::Integer) => true,
        (NativeValueView::Markdown(_), DataTypeView::Markdown) => true,
        (NativeValueView::Slug(_), DataTypeView::Slug) => true,
        (NativeValueView::String(_), DataTypeView::String) => true,
        (NativeValueView::Timestamp(_), DataTypeView::Timestamp) => true,
        (NativeValueView::Unsupported(_, u), DataTypeView::Unsupported(w)) => u == w,
        _ => false,
    }
}

/// Writing a value as text and reading the text by the datatype it fits
/// gives the value back (resource arrays aside, whose text serde_json writes).
pub proof fn law_value_text_round_trip(v: NativeValueView, d: DataTypeView)
    requires
        value_fits(v, d),
    ensures
        spec_value_new(spec_value_text(v), d) == Ok::<NativeValueView, crate::errors::ErrorView>(v),
{
    match v {
        NativeValueView::Integer(n) => lemma_i64_text_round_trip(n),
        NativeValueView::Timestamp(n) => lemma_i64_text_round_trip(n),
        _ => {},
    }
}

/// Writes a value as text, as `spec_value_text` describes.
pub fn value_text(v: &NativeValue) -> (s: String)
    ensures
        s@ == spec_value_text(v@),
{
    match v {
        NativeValue::AtomicUrl(s) => s.clone(),
        NativeValue::Date(s) => s.clone(),
        NativeValue::Integer(n) => i64_text(*n),
        NativeValue::Markdown(s) => s.clone(),
        NativeValue::ResourceArray(items) => match json_strings_text(items) {
            Ok(t) => t,
            Err(_) => String::new(),
        },
        NativeValue::Slug(s) => s.clone(),
        NativeValue::String(s) => s.clone(),
        NativeValue::Timestamp(n) => i64_text(*n),
        NativeValue::Unsupported(u) => u.value.clone(),
    }
}

impl Resource {
    /// A resource of `subject` without values.
    pub fn new(subject: String) -> (r: Resource)
        ensures
            r@ == (subject@, Seq::<(Seq<char>, NativeValueView)>::empty()),
    {
        let r = Resource { subject, propvals: Vec::new() };
        assert(propvals_view(r.propvals@) =~= Seq::<(Seq<char>, NativeValueView)>::empty());
        r
    }

    /// The subject of the resource.
    pub fn get_subject(&self) -> (s: &String)
        ensures
            s@ == self@.0,
    {
        &self.subject
    }

    /// The resource with every value written as text, as `plain_view` describes.
    pub fn to_plain(&self) -> (r: ResourceString)
        ensures
            r@ == plain_view(self@.1),
    {
        let mut plain = ResourceString::new();
        let n = self.propvals.len();
        let mut i: usize = 0;
        while i < n
            invariant
                n == self.propvals@.len(),
                i <= n,
                plain@ == plain_view(propvals_view(self.propvals@).take(i as int)),
            decreases n - i,
        {
            let ghost pv = propvals_view(self.propvals@);
            assert(pv.take(i + 1).drop_last() =~= pv.take(i as int));
            assert(pv.take(i + 1).last() == pv[i as int]);
            let text = value_text(&self.propvals[i].1);
            plain.insert(self.propvals[i].0.clone(), text);
            i = i + 1;
        }
        assert(propvals_view(self.propvals@).take(n as int) =~= propvals_view(self.propvals@));
        plain
    }
}

} // verus!
