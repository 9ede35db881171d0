//! The `Storelike` interface and the queries every store gets from it.
use vstd::prelude::*;
use crate::atom::{Atom, atoms_view};
use crate::datatype::{DataType, DataTypeView, match_datatype, spec_match_datatype};
use crate::errors::{AtomicError, AtomicResult, ErrorView, res_view};
use crate::json::{json_array_text, json_strings_text, json_string_array, parse_json_array};
use crate::resource::{ResourceString, ResourceView, lookup, rv_insert, keys_unique};
use crate::text::{push_char, str_eq};
use crate::urls;
use crate::sorting::{concat_pages, keys_sorted, pages_view, paged, pair_keys, pair_subjects, pairs_view, paginate, sort_pairs};
use crate::parse::{parse_ad3, ad3_atoms, ad3_line, text_lines, lemma_text_lines_step, lemma_ad3_atoms_step};
use crate::json::{
    JsonInner, JsonInnerView, JsonMember, JsonMemberView, JsonScalar, JsonScalarView, json_pretty_text,
    members_view, to_json_pretty,
};
use crate::collections::{Collection, Page, TPFQuery, opt_as_str, opt_string_view, strings_view};
use crate::mapping::{Mapping, is_url, spec_is_url, spec_try_mapping_or_url};
use crate::numbers::{parse_u32, spec_parse_u32};
use crate::text::{split_char, split_on, lemma_split_on_len};
use crate::delta::{Delta, DeltaLineView, lines_view};
use crate::values::{NativeValue, NativeValueView, spec_value_new};
use crate::query::{
    opt_str_view, matching_atoms, collection_matches, collection_atoms, find_in_resource,
    push_all_atoms,
};
use crate::resource::{rv_atoms, resource_to_atoms};
use crate::resources::{PropValsView, Resource, plain_view};

verus! {

/// A property: what its values mean and how they are written.
#[derive(Debug, PartialEq, Eq)]
pub struct Property {
    /// URL of the class that values of this property are instances of.
    pub class_type: Option<String>,
    /// URL of the datatype, read.
    pub data_type: DataType,
    pub shortname: String,
    pub subject: String,
    pub description: String,
}

/// The mathematical value of a [`Property`].
pub struct PropertyView {
    pub class_type: Option<Seq<char>>,
    pub data_type: DataTypeView,
    pub shortname: Seq<char>,
    pub subject: Seq<char>,
    pub description: Seq<char>,
}

/// The view of an optional string.
pub open spec fn opt_view(o: Option<String>) -> Option<Seq<char>> {
    match o {
        Some(s) => Some(s@),
        None => None,
    }
}

impl View for Property {
    type V = PropertyView;

    open spec fn view(&self) -> PropertyView {
        PropertyView {
            class_type: opt_view(self.class_type),
            data_type: self.data_type@,
            shortname: self.shortname@,
            subject: self.subject@,
            description: self.description@,
        }
    }
}

/// A class: the properties its instances must and should have.
#[derive(Debug, PartialEq, Eq)]
pub struct Class {
    pub required: Vec<Property>,
    pub recommended: Vec<Property>,
    pub shortname: String,
    pub description: String,
    /// URL
    pub subject: String,
}

/// The mathematical value of a [`Class`].
pub struct ClassView {
    pub required: Seq<PropertyView>,
    pub recommended: Seq<PropertyView>,
    pub shortname: Seq<char>,
    pub description: Seq<char>,
    pub subject: Seq<char>,
}

/// The views of a list of properties.
pub open spec fn properties_view(ps: Seq<Property>) -> Seq<PropertyView> {
    ps.map_values(|p: Property| p@)
}

impl View for Class {
    type V = ClassView;

    open spec fn view(&self) -> ClassView {
        ClassView {
            required: properties_view(self.required@),
            recommended: properties_view(self.recommended@),
            shortname: self.shortname@,
            description: self.description@,
            subject: self.subject@,
        }
    }
}

/// The property that the resource of `url` describes: its datatype,
/// shortname and description must be set, in that order of checking.
pub open spec fn spec_property(url: Seq<char>, rv: ResourceView) -> Result<PropertyView, ErrorView> {
    match lookup(rv, urls::DATATYPE_PROP@) {
        None => Err(ErrorView::DatatypeNotFound(url)),
        Some(datatype) => match lookup(rv, urls::SHORTNAME@) {
            None => Err(ErrorView::ShortnameNotFound(url)),
            Some(shortname) => match lookup(rv, urls::DESCRIPTION@) {
                None => Err(ErrorView::DescriptionNotFound(url)),
                Some(description) => Ok(
                    PropertyView {
                        class_type: lookup(rv, urls::CLASSTYPE_PROP@),
                        data_type: spec_match_datatype(datatype),
                        shortname,
                        subject: url,
                        description,
                    },
                ),
            },
        },
    }
}

/// The property that `resource`, the resource of `url`, describes.
pub fn property_from_resource(url: &str, resource: &ResourceString) -> (r: AtomicResult<Property>)
    ensures
        res_view(r) == spec_property(url@, resource@),
{
    let datatype = match resource.get(urls::DATATYPE_PROP) {
        Some(d) => d,
        None => return Err(AtomicError::DatatypeNotFound(url.to_owned())),
    };
    let shortname = match resource.get(urls::SHORTNAME) {
        Some(s) => s,
        None => return Err(AtomicError::ShortnameNotFound(url.to_owned())),
    };
    let description = match resource.get(urls::DESCRIPTION) {
        Some(d) => d,
        None => return Err(AtomicError::DescriptionNotFound(url.to_owned())),
    };
    let class_type = match resource.get(urls::CLASSTYPE_PROP) {
        Some(c) => Some(c.clone()),
        None => None,
    };
    Ok(
        Property {
            data_type: match_datatype(datatype.as_str()),
            shortname: shortname.clone(),
            description: description.clone(),
            class_type,
            subject: url.to_owned(),
        },
    )
}

/// An atom whose property has been read and whose value has been read
/// according to the property's datatype.
#[derive(Debug, PartialEq, Eq)]
pub struct RichAtom {
    pub subject: String,
    pub property: Property,
    pub value: String,
    pub native_value: NativeValue,
}

/// The mathematical value of a [`RichAtom`].
pub struct RichAtomView {
    pub subject: Seq<char>,
    pub property: PropertyView,
    pub value: Seq<char>,
    pub native_value: NativeValueView,
}

impl View for RichAtom {
    type V = RichAtomView;

    open spec fn view(&self) -> RichAtomView {
        RichAtomView {
            subject: self.subject@,
            property: self.property@,
            value: self.value@,
            native_value: self.native_value@,
        }
    }
}

impl RichAtom {
    /// The atom of `subject`, `property` and `value`, its value read by the
    /// property's datatype.
    pub fn new(subject: String, property: Property, value: String) -> (r: AtomicResult<RichAtom>)
        ensures
            match spec_value_new(value@, property.data_type@) {
                Ok(nv) => r matches Ok(a) && a@ == RichAtomView {
                    subject: subject@,
                    property: property@,
                    value: value@,
                    native_value: nv,
                },
                Err(e) => r matches Err(x) && x@ == e,
            },
    {
        let native_value = NativeValue::new(value.as_str(), &property.data_type)?;
        Ok(RichAtom { subject, property, value, native_value })
    }
}

/// Where a path ends: at a resource, or at a value of one.
#[derive(Debug, PartialEq, Eq)]
pub enum PathReturn {
    Subject(String),
    Atom(Box<RichAtom>),
}

/// The mathematical value of a [`PathReturn`].
pub enum PathReturnView {
    Subject(Seq<char>),
    Atom(RichAtomView),
}

impl View for PathReturn {
    type V = PathReturnView;

    open spec fn view(&self) -> PathReturnView {
        match self {
            PathReturn::Subject(s) => PathReturnView::Subject(s@),
            PathReturn::Atom(a) => PathReturnView::Atom((**a)@),
        }
    }
}

/// What a store holds: each subject's resource.
pub type StoreView = Map<Seq<char>, ResourceView>;

/// What a store answers when asked for a subject it does not hold.
pub type FetchFn = spec_fn(Seq<char>) -> Result<ResourceView, ErrorView>;

/// What a store answers when asked for `subject` while it holds `store`:
/// the stored resource, or else what it answers for subjects it does not hold.
pub open spec fn answer(f: FetchFn, store: StoreView, subject: Seq<char>) -> Result<ResourceView, ErrorView> {
    if store.contains_key(subject) {
        Ok(store[subject])
    } else {
        f(subject)
    }
}

/// Whether a store holding given resources takes a write of a resource for a subject.
pub type AcceptFn = spec_fn(StoreView, Seq<char>, ResourceView) -> bool;

/// The resource that `subject` starts from when an atom is added: the one
/// the store answers with, or an empty one.
pub open spec fn base_resource(f: FetchFn, store: StoreView, subject: Seq<char>) -> ResourceView {
    match answer(f, store, subject) {
        Ok(rv) => rv,
        Err(_) => Seq::empty(),
    }
}

/// The store after setting `property` to `value` on `subject`.
pub open spec fn store_add_atom(
    f: FetchFn,
    store: StoreView,
    atom: (Seq<char>, Seq<char>, Seq<char>),
) -> StoreView {
    store.insert(atom.0, rv_insert(base_resource(f, store, atom.0), atom.1, atom.2))
}

/// The resource that adding `atom` writes for its subject.
pub open spec fn atom_resource(f: FetchFn, store: StoreView, atom: (Seq<char>, Seq<char>, Seq<char>)) -> ResourceView {
    rv_insert(base_resource(f, store, atom.0), atom.1, atom.2)
}

/// The store after setting `atom`'s property to its value on the stored
/// resource of its subject, or on a new resource.
pub open spec fn store_set(store: StoreView, atom: (Seq<char>, Seq<char>, Seq<char>)) -> StoreView {
    let base = if store.contains_key(atom.0) { store[atom.0] } else { Seq::empty() };
    store.insert(atom.0, rv_insert(base, atom.1, atom.2))
}

/// The store after adding the atoms one after the other.
pub open spec fn apply_atoms(
    store: StoreView,
    atoms: Seq<(Seq<char>, Seq<char>, Seq<char>)>,
) -> StoreView
    decreases atoms.len(),
{
    if atoms.len() == 0 {
        store
    } else {
        store_set(apply_atoms(store, atoms.drop_last()), atoms.last())
    }
}

/// `c` lists each subject of `store` once, with its resource.
pub open spec fn is_listing(c: Seq<(Seq<char>, ResourceView)>, store: StoreView) -> bool {
    &&& forall|i: int| 0 <= i < c.len() ==> #[trigger] store.contains_key(c[i].0) && store[c[i].0] == c[i].1
    &&& forall|k: Seq<char>| #[trigger] store.contains_key(k) ==> exists|i: int| 0 <= i < c.len() && c[i].0 == k
    &&& forall|i: int, j: int| 0 <= i < c.len() && 0 <= j < c.len() && i != j ==> c[i].0 != c[j].0
}

/// The views of a list of subjects with their resources.
pub open spec fn collection_view(c: Seq<(String, ResourceString)>) -> Seq<(Seq<char>, ResourceView)> {
    c.map_values(|e: (String, ResourceString)| (e.0@, e.1@))
}

/// What `get_property` gives for `url` in a store of type `S`.
pub open spec fn spec_get_property(f: FetchFn, store: StoreView, url: Seq<char>) -> Result<PropertyView, ErrorView> {
    match answer(f, store, url) {
        Err(e) => Err(e),
        Ok(rv) => spec_property(url, rv),
    }
}

/// What `property_url_to_shortname` gives for `url` in a store of type `S`.
pub open spec fn spec_url_to_shortname(f: FetchFn, store: StoreView, url: Seq<char>) -> Result<Seq<char>, ErrorView> {
    match answer(f, store, url) {
        Err(e) => Err(e),
        Ok(rv) => match lookup(rv, urls::SHORTNAME@) {
            Some(s) => Ok(s),
            None => Err(ErrorView::ShortnameNotFound(url)),
        },
    }
}

/// What `property_shortname_to_url` gives when it looks through the
/// property URLs `props`, in order.
pub open spec fn spec_shortname_to_url(
    f: FetchFn,
    store: StoreView,
    shortname: Seq<char>,
    props: Seq<Seq<char>>,
) -> Result<Seq<char>, ErrorView>
    decreases props.len(),
{
    if props.len() == 0 {
        Err(ErrorView::ShortnameUnknown(shortname))
    } else {
        match answer(f, store, props[0]) {
            Err(e) => Err(e),
            Ok(rv) => match lookup(rv, urls::SHORTNAME@) {
                None => Err(ErrorView::ShortnameNotFound(props[0])),
                Some(s) => if s == shortname {
                    Ok(props[0])
                } else {
                    spec_shortname_to_url(f, store, shortname, props.drop_first())
                },
            },
        }
    }
}

/// The properties of a resource, in order.
pub open spec fn rv_keys(rv: ResourceView) -> Seq<Seq<char>> {
    rv.map_values(|e: (Seq<char>, Seq<char>)| e.0)
}

/// The AD3 text of a resource: one JSON array `[subject, property, value]`
/// per line, as serde_json writes it.
pub open spec fn ad3_lines(subject: Seq<char>, rv: ResourceView) -> Seq<char>
    decreases rv.len(),
{
    if rv.len() == 0 {
        Seq::empty()
    } else {
        ad3_lines(subject, rv.drop_last()) + json_array_text(seq![subject, rv.last().0, rv.last().1]).push('\n')
    }
}

/// The values of `rv` read by the datatypes of their properties, in order.
/// A property that cannot be read stops the reading with its error; `None`
/// where a value does not fit its property's datatype.
pub open spec fn spec_native_values(f: FetchFn, store: StoreView, rv: ResourceView) -> Option<Result<PropValsView, ErrorView>>
    decreases rv.len(),
{
    if rv.len() == 0 {
        Some(Ok(Seq::empty()))
    } else {
        match spec_native_values(f, store, rv.drop_last()) {
            Some(Ok(pv)) => match spec_get_property(f, store, rv.last().0) {
                Err(e) => Some(Err(e)),
                Ok(p) => match spec_value_new(rv.last().1, p.data_type) {
                    Err(_) => None,
                    Ok(v) => Some(Ok(pv.push((rv.last().0, v)))),
                },
            },
            other => other,
        }
    }
}

proof fn lemma_native_values_stop(f: FetchFn, store: StoreView, rv: ResourceView, k: int)
    requires
        0 <= k <= rv.len(),
        !(spec_native_values(f, store, rv.take(k)) matches Some(Ok(_))),
    ensures
        spec_native_values(f, store, rv) == spec_native_values(f, store, rv.take(k)),
    decreases rv.len(),
{
    if k < rv.len() {
        assert(rv.drop_last().take(k) =~= rv.take(k));
        lemma_native_values_stop(f, store, rv.drop_last(), k);
    } else {
        assert(rv.take(k) =~= rv);
    }
}

/// What `get_resource` gives: the subject's resource with its values read,
/// the error of the store or of a property that cannot be read, or `None`
/// where a value does not fit its property's datatype.
pub open spec fn spec_get_resource(f: FetchFn, store: StoreView, subject: Seq<char>) -> Option<Result<(Seq<char>, PropValsView), ErrorView>> {
    match answer(f, store, subject) {
        Err(e) => Some(Err(e)),
        Ok(rv) => match spec_native_values(f, store, rv) {
            Some(Ok(pv)) => Some(Ok((subject, pv))),
            Some(Err(e)) => Some(Err(e)),
            None => None,
        },
    }
}

/// The view of an optional resource result.
pub open spec fn resource_result_view(r: Option<AtomicResult<Resource>>) -> Option<Result<(Seq<char>, PropValsView), ErrorView>> {
    match r {
        None => None,
        Some(Ok(x)) => Some(Ok(x@)),
        Some(Err(e)) => Some(Err(e@)),
    }
}

/// What `tpf` gives for a query with a subject.
pub open spec fn spec_tpf_subject(
    f: FetchFn,
    store: StoreView,
    subject: Seq<char>,
    qp: Option<Seq<char>>,
    qv: Option<Seq<char>>,
) -> Seq<(Seq<char>, Seq<char>, Seq<char>)> {
    match answer(f, store, subject) {
        Ok(rv) => if qp is Some || qv is Some {
            matching_atoms(subject, rv, qp, qv)
        } else {
            rv_atoms(subject, rv)
        },
        Err(_) => Seq::empty(),
    }
}

/// What `tpf` gives for a query without a subject, when the store lists its
/// resources as `c`.
pub open spec fn spec_tpf_all(
    c: Seq<(Seq<char>, ResourceView)>,
    qp: Option<Seq<char>>,
    qv: Option<Seq<char>>,
) -> Seq<(Seq<char>, Seq<char>, Seq<char>)> {
    if qp is None && qv is None {
        collection_atoms(c)
    } else {
        collection_matches(c, qp, qv)
    }
}

/// The properties at `urls`, in order, or `None` where one of them cannot be read.
pub open spec fn spec_properties(f: FetchFn, store: StoreView, urls: Seq<Seq<char>>) -> Option<Seq<PropertyView>>
    decreases urls.len(),
{
    if urls.len() == 0 {
        Some(Seq::empty())
    } else {
        match (spec_properties(f, store, urls.drop_last()), spec_get_property(f, store, urls.last())) {
            (Some(ps), Ok(p)) => Some(ps.push(p)),
            _ => None,
        }
    }
}

proof fn lemma_properties_prefix(f: FetchFn, store: StoreView, urls: Seq<Seq<char>>, k: int)
    requires
        0 <= k <= urls.len(),
        spec_properties(f, store, urls.take(k)) is None,
    ensures
        spec_properties(f, store, urls) is None,
    decreases urls.len(),
{
    if k < urls.len() {
        assert(urls.drop_last().take(k) =~= urls.take(k));
        lemma_properties_prefix(f, store, urls.drop_last(), k);
    } else {
        assert(urls.take(k) =~= urls);
    }
}

/// The properties listed by an optional JSON array of property URLs: none
/// where there is no array, `None` where the text is not an array or a
/// property cannot be read.
pub open spec fn spec_property_list(f: FetchFn, store: StoreView, text: Option<Seq<char>>) -> Option<Seq<PropertyView>> {
    match text {
        None => Some(Seq::empty()),
        Some(t) => match json_string_array(t) {
            Some(urls) => spec_properties(f, store, urls),
            None => None,
        },
    }
}

/// The class described by the resource of `subject`, or `None` where reading
/// it fails: the resource, its shortname or its description is missing, or
/// the properties it requires or recommends cannot be read.
pub open spec fn spec_get_class(f: FetchFn, store: StoreView, subject: Seq<char>) -> Option<ClassView> {
    match answer(f, store, subject) {
        Err(_) => None,
        Ok(rv) => match (
            lookup(rv, urls::SHORTNAME@),
            lookup(rv, urls::DESCRIPTION@),
            spec_property_list(f, store, lookup(rv, urls::REQUIRES@)),
            spec_property_list(f, store, lookup(rv, urls::RECOMMENDS@)),
        ) {
            (Some(shortname), Some(description), Some(required), Some(recommended)) => Some(
                ClassView { required, recommended, shortname, description, subject },
            ),
            _ => None,
        },
    }
}

/// The view of an optional class.
pub open spec fn opt_class_view(c: Option<Class>) -> Option<ClassView> {
    match c {
        Some(c) => Some(c@),
        None => None,
    }
}

/// The classes at `urls`, in order, or `None` where one of them cannot be read.
pub open spec fn spec_classes(f: FetchFn, store: StoreView, urls: Seq<Seq<char>>) -> Option<Seq<ClassView>>
    decreases urls.len(),
{
    if urls.len() == 0 {
        Some(Seq::empty())
    } else {
        match (spec_classes(f, store, urls.drop_last()), spec_get_class(f, store, urls.last())) {
            (Some(cs), Some(c)) => Some(cs.push(c)),
            _ => None,
        }
    }
}

proof fn lemma_classes_prefix(f: FetchFn, store: StoreView, urls: Seq<Seq<char>>, k: int)
    requires
        0 <= k <= urls.len(),
        spec_classes(f, store, urls.take(k)) is None,
    ensures
        spec_classes(f, store, urls) is None,
    decreases urls.len(),
{
    if k < urls.len() {
        assert(urls.drop_last().take(k) =~= urls.take(k));
        lemma_classes_prefix(f, store, urls.drop_last(), k);
    } else {
        assert(urls.take(k) =~= urls);
    }
}

/// The views of a list of classes.
pub open spec fn classes_view(cs: Seq<Class>) -> Seq<ClassView> {
    cs.map_values(|c: Class| c@)
}

/// What `get_classes_for_subject` gives: the classes that the subject's
/// `isA` array names, none where it has no such property, an error where its
/// resource cannot be had or the property is not an array of resources, and
/// `None` where one of the classes cannot be read.
pub open spec fn spec_classes_for_subject(f: FetchFn, store: StoreView, subject: Seq<char>) -> Option<Result<Seq<ClassView>, ErrorView>> {
    match answer(f, store, subject) {
        Err(e) => Some(Err(e)),
        Ok(rv) => match lookup(rv, urls::IS_A@) {
            None => Some(Ok(Seq::empty())),
            Some(text) => match spec_value_new(text, DataTypeView::ResourceArray) {
                Err(e) => Some(Err(e)),
                Ok(NativeValueView::ResourceArray(class_urls)) => match spec_classes(f, store, class_urls) {
                    Some(cs) => Some(Ok(cs)),
                    None => None,
                },
                Ok(_) => Some(Err(ErrorView::NotAnArray)),
            },
        },
    }
}

/// The view of a result that holds classes.
pub open spec fn classes_result_view(r: AtomicResult<Vec<Class>>) -> Result<Seq<ClassView>, ErrorView> {
    match r {
        Ok(cs) => Ok(classes_view(cs@)),
        Err(e) => Err(e@),
    }
}

/// The line inserts its value.
pub open spec fn is_insert(method: Seq<char>) -> bool {
    method == urls::INSERT@ || method == "insert"@
}

/// The line deletes its value.
pub open spec fn is_delete(method: Seq<char>) -> bool {
    method == urls::DELETE@ || method == "delete"@
}

/// How processing a delta ends.
pub enum DeltaOutcome {
    /// A property cannot be read, or a line deletes: processing does not go on.
    Halts,
    /// A value does not fit its property's datatype: the error, and the
    /// store as the lines before left it.
    Rejected(ErrorView, StoreView),
    /// The store did not take the write of an atom: the store as the lines
    /// before left it.
    Refused(StoreView),
    /// Every line was applied, leaving the store so.
    Applied(StoreView),
}

/// What processing the lines of a delta on `subject` does, line by line:
/// an insert reads its property, checks the value against the property's
/// datatype and adds the atom, where the store takes it; other methods than
/// insert and delete are skipped.
pub open spec fn delta_run(
    f: FetchFn,
    acc: AcceptFn,
    store: StoreView,
    subject: Seq<char>,
    lines: Seq<DeltaLineView>,
) -> DeltaOutcome
    decreases lines.len(),
{
    if lines.len() == 0 {
        DeltaOutcome::Applied(store)
    } else {
        let l = lines[0];
        if is_insert(l.method) {
            match spec_get_property(f, store, l.property) {
                Err(_) => DeltaOutcome::Halts,
                Ok(p) => match spec_value_new(l.value, p.data_type) {
                    Err(e) => DeltaOutcome::Rejected(e, store),
                    Ok(_) => if acc(store, subject, atom_resource(f, store, (subject, l.property, l.value))) {
                        delta_run(
                            f,
                            acc,
                            store_add_atom(f, store, (subject, l.property, l.value)),
                            subject,
                            lines.drop_first(),
                        )
                    } else {
                        DeltaOutcome::Refused(store)
                    },
                },
            }
        } else if is_delete(l.method) {
            DeltaOutcome::Halts
        } else {
            delta_run(f, acc, store, subject, lines.drop_first())
        }
    }
}

/// What `process_delta` returns and leaves behind for a given outcome:
/// success and the resulting store where every line was applied; the
/// rejecting error, with the store as the lines before left it, where a
/// value does not fit; an error, with the store likewise left as the lines
/// before left it, where the store did not take a write.
pub open spec fn delta_result_holds(outcome: DeltaOutcome, r: AtomicResult<()>, fin: StoreView) -> bool {
    match outcome {
        DeltaOutcome::Applied(v) => r is Ok && fin == v,
        DeltaOutcome::Rejected(e, v) => fin == v && match r {
            Err(x) => x@ == e,
            Ok(_) => false,
        },
        DeltaOutcome::Refused(v) => r is Err && fin == v,
        DeltaOutcome::Halts => true,
    }
}

/// Every line is an insert or another non-delete method, and every inserted
/// property is readable in `store` and is not the delta's own subject.
pub open spec fn delta_properties_ready(f: FetchFn, store: StoreView, subject: Seq<char>, lines: Seq<DeltaLineView>) -> bool {
    forall|i: int| 0 <= i < lines.len() ==> {
        &&& !is_delete(#[trigger] lines[i].method)
        &&& is_insert(lines[i].method) ==> lines[i].property != subject && spec_get_property(f, store, lines[i].property) is Ok
    }
}

/// Changing only the resource of `subject` keeps every other property readable as it was.
proof fn lemma_ready_after_add(f: FetchFn, store: StoreView, subject: Seq<char>, lines: Seq<DeltaLineView>, rv: ResourceView)
    requires
        delta_properties_ready(f, store, subject, lines),
    ensures
        delta_properties_ready(f, store.insert(subject, rv), subject, lines),
        forall|i: int| 0 <= i < lines.len() && is_insert(lines[i].method) ==>
            spec_get_property(f, store.insert(subject, rv), #[trigger] lines[i].property) == spec_get_property(f, store, lines[i].property),
{
    assert forall|i: int| 0 <= i < lines.len() && is_insert(lines[i].method) implies
        spec_get_property(f, store.insert(subject, rv), #[trigger] lines[i].property) == spec_get_property(f, store, lines[i].property) by {
        assert(lines[i].property != subject);
        assert(answer(f, store.insert(subject, rv), lines[i].property) == answer(f, store, lines[i].property));
    }
    assert forall|i: int| 0 <= i < lines.len() implies {
        &&& !is_delete(#[trigger] lines[i].method)
        &&& is_insert(lines[i].method) ==> lines[i].property != subject && spec_get_property(f, store.insert(subject, rv), lines[i].property) is Ok
    } by {
        if is_insert(lines[i].method) {
            assert(answer(f, store.insert(subject, rv), lines[i].property) == answer(f, store, lines[i].property));
        }
    }
}

/// Where every inserted property is ready, processing never halts.
proof fn lemma_ready_never_halts(f: FetchFn, acc: AcceptFn, store: StoreView, subject: Seq<char>, lines: Seq<DeltaLineView>)
    requires
        delta_properties_ready(f, store, subject, lines),
    ensures
        !(delta_run(f, acc, store, subject, lines) is Halts),
    decreases lines.len(),
{
    if lines.len() > 0 {
        let l = lines[0];
        assert(!is_delete(lines[0].method));
        let rest = lines.drop_first();
        assert(delta_properties_ready(f, store, subject, rest)) by {
            assert forall|i: int| 0 <= i < rest.len() implies {
                &&& !is_delete(#[trigger] rest[i].method)
                &&& is_insert(rest[i].method) ==> rest[i].property != subject && spec_get_property(f, store, rest[i].property) is Ok
            } by {
                assert(rest[i] == lines[i + 1]);
            }
        }
        if is_insert(l.method) {
            match spec_get_property(f, store, l.property) {
                Err(_) => {},
                Ok(p) => {
                    let next = store_add_atom(f, store, (subject, l.property, l.value));
                    lemma_ready_after_add(f, store, subject, rest, rv_insert(base_resource(f, store, subject), l.property, l.value));
                    lemma_ready_never_halts(f, acc, next, subject, rest);
                },
            }
        } else {
            lemma_ready_never_halts(f, acc, store, subject, rest);
        }
    }
}

/// How following a path ends.
pub enum PathOutcome {
    /// The path indexes an array that is not a JSON array of strings or past
    /// its end, or names a property its resource does not have: the walk does
    /// not go on.
    Halts,
    /// The walk ends with this result.
    Ends(Result<PathReturnView, ErrorView>),
}

/// Following the remaining `items` of a path from the resource `rv` of
/// `subject`, where `current` is what the path has reached so far. Empty
/// items are skipped; a number indexes the array value reached last; any
/// other item is a property, by URL or by the shortname of one of the
/// resource's properties.
pub open spec fn path_walk(
    f: FetchFn,
    store: StoreView,
    subject: Seq<char>,
    rv: ResourceView,
    current: PathReturnView,
    items: Seq<Seq<char>>,
) -> PathOutcome
    decreases items.len(),
{
    if items.len() == 0 {
        PathOutcome::Ends(Ok(current))
    } else {
        let item = items[0];
        let rest = items.drop_first();
        if item.len() == 0 {
            path_walk(f, store, subject, rv, current, rest)
        } else {
            match spec_parse_u32(item) {
                Some(i) => match current {
                    PathReturnView::Atom(atom) => match lookup(rv, atom.property.subject) {
                        None => PathOutcome::Ends(Err(ErrorView::PropertyNotFound(atom.property.subject))),
                        Some(array) => match json_string_array(array) {
                            None => PathOutcome::Halts,
                            Some(vector) => if vector.len() <= i {
                                PathOutcome::Halts
                            } else {
                                let url = vector[i as int];
                                match answer(f, store, url) {
                                    Err(e) => PathOutcome::Ends(Err(e)),
                                    Ok(next) => path_walk(f, store, url, next, PathReturnView::Subject(url), rest),
                                }
                            },
                        },
                    },
                    PathReturnView::Subject(_) => PathOutcome::Ends(Err(ErrorView::IndexOnResource)),
                },
                None => match current {
                    PathReturnView::Atom(_) => PathOutcome::Ends(Err(ErrorView::NoMoreLinkedResources)),
                    PathReturnView::Subject(_) => {
                        let prop = if spec_is_url(item) {
                            Ok(item)
                        } else {
                            spec_shortname_to_url(f, store, item, rv_keys(rv))
                        };
                        match prop {
                            Err(e) => PathOutcome::Ends(Err(e)),
                            Ok(property_url) => match lookup(rv, property_url) {
                                None => PathOutcome::Halts,
                                Some(value) => match spec_get_property(f, store, property_url) {
                                    Err(e) => PathOutcome::Ends(Err(e)),
                                    Ok(property) => match spec_value_new(value, property.data_type) {
                                        Err(e) => PathOutcome::Ends(Err(e)),
                                        Ok(nv) => path_walk(
                                            f,
                                            store,
                                            subject,
                                            rv,
                                            PathReturnView::Atom(
                                                RichAtomView { subject, property, value, native_value: nv },
                                            ),
                                            rest,
                                        ),
                                    },
                                },
                            },
                        }
                    },
                },
            }
        }
    }
}

/// Following the path `path` (items separated by spaces, the first one a
/// subject URL or, with a mapping, a mapped shortname).
pub open spec fn spec_get_path(f: FetchFn, store: StoreView, path: Seq<char>, mapping: Option<ResourceView>) -> PathOutcome {
    let items = split_on(path, ' ');
    let first = items[0];
    let id = match mapping {
        None => Some(first),
        Some(m) => spec_try_mapping_or_url(m, first),
    };
    match id {
        None => PathOutcome::Ends(Err(ErrorView::NoMapping(first))),
        Some(id_url) => if items.len() == 1 {
            PathOutcome::Ends(Ok(PathReturnView::Subject(id_url)))
        } else {
            match answer(f, store, id_url) {
                Err(e) => PathOutcome::Ends(Err(e)),
                Ok(rv) => path_walk(
                    f,
                    store,
                    id_url,
                    rv,
                    PathReturnView::Subject(id_url),
                    items.drop_first(),
                ),
            }
        },
    }
}

/// The view of an optional mapping.
pub open spec fn opt_mapping_view(m: Option<&Mapping>) -> Option<ResourceView> {
    match m {
        Some(m) => Some(m@),
        None => None,
    }
}

/// The view of the result of following a path.
pub open spec fn path_result_view(r: Option<AtomicResult<PathReturn>>) -> PathOutcome {
    match r {
        None => PathOutcome::Halts,
        Some(Ok(p)) => PathOutcome::Ends(Ok(p@)),
        Some(Err(e)) => PathOutcome::Ends(Err(e@)),
    }
}

/// The subjects of a list of atoms, in order.
pub open spec fn atom_subjects(atoms: Seq<(Seq<char>, Seq<char>, Seq<char>)>) -> Seq<Seq<char>> {
    atoms.map_values(|a: (Seq<char>, Seq<char>, Seq<char>)| a.0)
}

proof fn lemma_matching_subjects(s: Seq<char>, rv: ResourceView, qp: Option<Seq<char>>, qv: Option<Seq<char>>)
    ensures
        forall|i: int| 0 <= i < matching_atoms(s, rv, qp, qv).len() ==> #[trigger] matching_atoms(s, rv, qp, qv)[i].0 == s,
    decreases rv.len(),
{
    if rv.len() > 0 {
        lemma_matching_subjects(s, rv.drop_last(), qp, qv);
        let prev = matching_atoms(s, rv.drop_last(), qp, qv);
        assert forall|i: int| 0 <= i < matching_atoms(s, rv, qp, qv).len() implies #[trigger] matching_atoms(s, rv, qp, qv)[i].0 == s by {
            if i < prev.len() {
                assert(matching_atoms(s, rv, qp, qv)[i] == prev[i]);
            }
        }
    }
}

/// Every atom that a query finds in a listing of the store is about a stored subject.
proof fn lemma_tpf_all_subjects_stored(c: Seq<(Seq<char>, ResourceView)>, store: StoreView, qp: Option<Seq<char>>, qv: Option<Seq<char>>)
    requires
        forall|i: int| 0 <= i < c.len() ==> #[trigger] store.contains_key(c[i].0),
    ensures
        forall|i: int| 0 <= i < spec_tpf_all(c, qp, qv).len() ==> store.contains_key(#[trigger] spec_tpf_all(c, qp, qv)[i].0),
    decreases c.len(),
{
    if c.len() > 0 {
        let d = c.drop_last();
        assert forall|i: int| 0 <= i < d.len() implies #[trigger] store.contains_key(d[i].0) by {
            assert(d[i] == c[i]);
        }
        lemma_tpf_all_subjects_stored(d, store, qp, qv);
        assert(store.contains_key(c[c.len() - 1].0));
        if qp is None && qv is None {
            let a = collection_atoms(d);
            let b = rv_atoms(c.last().0, c.last().1);
            assert forall|i: int| 0 <= i < spec_tpf_all(c, qp, qv).len() implies store.contains_key(#[trigger] spec_tpf_all(c, qp, qv)[i].0) by {
                if i >= a.len() {
                    assert(spec_tpf_all(c, qp, qv)[i] == b[i - a.len()]);
                } else {
                    assert(spec_tpf_all(c, qp, qv)[i] == a[i]);
                    assert(spec_tpf_all(d, qp, qv)[i] == a[i]);
                }
            }
        } else {
            let a = collection_matches(d, qp, qv);
            let b = matching_atoms(c.last().0, c.last().1, qp, qv);
            lemma_matching_subjects(c.last().0, c.last().1, qp, qv);
            assert forall|i: int| 0 <= i < spec_tpf_all(c, qp, qv).len() implies store.contains_key(#[trigger] spec_tpf_all(c, qp, qv)[i].0) by {
                if i >= a.len() {
                    assert(spec_tpf_all(c, qp, qv)[i] == b[i - a.len()]);
                } else {
                    assert(spec_tpf_all(c, qp, qv)[i] == a[i]);
                    assert(spec_tpf_all(d, qp, qv)[i] == a[i]);
                }
            }
        }
    }
}

/// The JSON-LD context entry of a property with URL `url` and datatype `dt`:
/// an object with `@id` and `@type` (or `@container`) for URLs, dates,
/// integers and resource arrays, the bare URL otherwise.
pub open spec fn ctx_entry(url: Seq<char>, dt: DataTypeView) -> JsonInnerView {
    match dt {
        DataTypeView::AtomicUrl => JsonInnerView::Object(
            seq![("@id"@, JsonScalarView::Str(url)), ("@type"@, JsonScalarView::Str("@id"@))],
        ),
        DataTypeView::Date => JsonInnerView::Object(
            seq![("@id"@, JsonScalarView::Str(url)), ("@type"@, JsonScalarView::Str("http://www.w3.org/2001/XMLSchema#date"@))],
        ),
        DataTypeView::Integer => JsonInnerView::Object(
            seq![("@id"@, JsonScalarView::Str(url)), ("@type"@, JsonScalarView::Str("http://www.w3.org/2001/XMLSchema#integer"@))],
        ),
        DataTypeView::ResourceArray => JsonInnerView::Object(
            seq![("@id"@, JsonScalarView::Str(url)), ("@container"@, JsonScalarView::Str("@list"@))],
        ),
        _ => JsonInnerView::Scalar(JsonScalarView::Str(url)),
    }
}

/// The JSON value of a read value: integers and timestamps as numbers,
/// resource arrays as arrays of strings, everything else as its text.
pub open spec fn value_json(nv: NativeValueView) -> JsonScalarView {
    match nv {
        NativeValueView::AtomicUrl(v) => JsonScalarView::Str(v),
        NativeValueView::Date(v) => JsonScalarView::Str(v),
        NativeValueView::Integer(n) => JsonScalarView::Num(n),
        NativeValueView::Markdown(v) => JsonScalarView::Str(v),
        NativeValueView::ResourceArray(v) => JsonScalarView::StrArray(v),
        NativeValueView::Slug(v) => JsonScalarView::Str(v),
        NativeValueView::String(v) => JsonScalarView::Str(v),
        NativeValueView::Timestamp(n) => JsonScalarView::Num(n),
        NativeValueView::Unsupported(v, _) => JsonScalarView::Str(v),
    }
}

/// How building the JSON members of a resource goes.
pub enum JsonBuild {
    /// A value does not fit its property's datatype: building does not go on.
    Halts,
    /// A property cannot be read.
    Fails(ErrorView),
    /// The members, by shortname, and the JSON-LD context entries.
    Built(Seq<(Seq<char>, JsonMemberView)>, Seq<(Seq<char>, JsonInnerView)>),
}

/// Building the JSON members of a resource, pair by pair: each property is
/// read for its shortname and datatype, a context entry is added for
/// JSON-LD, and the value, read by the datatype, becomes the member.
pub open spec fn json_build(f: FetchFn, store: StoreView, rv: ResourceView, json_ld: bool) -> JsonBuild
    decreases rv.len(),
{
    if rv.len() == 0 {
        JsonBuild::Built(Seq::empty(), Seq::empty())
    } else {
        match json_build(f, store, rv.drop_last(), json_ld) {
            JsonBuild::Built(root, ctx) => {
                let prop = rv.last().0;
                let val = rv.last().1;
                match spec_get_property(f, store, prop) {
                    Err(e) => JsonBuild::Fails(e),
                    Ok(p) => match spec_value_new(val, p.data_type) {
                        Err(_) => JsonBuild::Halts,
                        Ok(nv) => JsonBuild::Built(
                            root.push((p.shortname, JsonMemberView::Scalar(value_json(nv)))),
                            if json_ld {
                                ctx.push((p.shortname, ctx_entry(prop, p.data_type)))
                            } else {
                                ctx
                            },
                        ),
                    },
                }
            },
            other => other,
        }
    }
}

proof fn lemma_json_build_stops(f: FetchFn, store: StoreView, rv: ResourceView, json_ld: bool, k: int)
    requires
        0 <= k <= rv.len(),
        !(json_build(f, store, rv.take(k), json_ld) is Built),
    ensures
        json_build(f, store, rv, json_ld) == json_build(f, store, rv.take(k), json_ld),
    decreases rv.len(),
{
    if k < rv.len() {
        assert(rv.drop_last().take(k) =~= rv.take(k));
        lemma_json_build_stops(f, store, rv.drop_last(), json_ld, k);
    } else {
        assert(rv.take(k) =~= rv);
    }
}

/// How serialising a resource to JSON ends.
pub enum JsonOutcome {
    /// A value does not fit its property's datatype.
    Halts,
    /// The JSON text, or why there is none.
    Ends(Result<Seq<char>, ErrorView>),
}

/// Serialising the resource of `url` to a JSON object keyed by property
/// shortnames; for JSON-LD, with an `@context` of the properties and an `@id`.
pub open spec fn spec_resource_to_json(f: FetchFn, store: StoreView, url: Seq<char>, json_ld: bool) -> JsonOutcome {
    match answer(f, store, url) {
        Err(e) => JsonOutcome::Ends(Err(e)),
        Ok(rv) => match json_build(f, store, rv, json_ld) {
            JsonBuild::Halts => JsonOutcome::Halts,
            JsonBuild::Fails(e) => JsonOutcome::Ends(Err(e)),
            JsonBuild::Built(root, ctx) => JsonOutcome::Ends(
                Ok(
                    json_pretty_text(
                        if json_ld {
                            root.push(("@context"@, JsonMemberView::Object(ctx))).push(
                                ("@id"@, JsonMemberView::Scalar(JsonScalarView::Str(url))),
                            )
                        } else {
                            root
                        },
                    ),
                ),
            ),
        },
    }
}

/// The view of an optional result of serialising.
pub open spec fn json_result_view(r: Option<AtomicResult<String>>) -> JsonOutcome {
    match r {
        None => JsonOutcome::Halts,
        Some(Ok(s)) => JsonOutcome::Ends(Ok(s@)),
        Some(Err(e)) => JsonOutcome::Ends(Err(e@)),
    }
}

/// The views of JSON-LD context entries.
pub open spec fn inners_view(m: Seq<(String, JsonInner)>) -> Seq<(Seq<char>, JsonInnerView)> {
    m.map_values(|e: (String, JsonInner)| (e.0@, e.1@))
}

/// The context object `{"@id": url, key: val}`.
fn id_object(url: &str, key: &str, val: &str) -> (r: JsonInner)
    ensures
        r@ == JsonInnerView::Object(seq![("@id"@, JsonScalarView::Str(url@)), (key@, JsonScalarView::Str(val@))]),
{
    let mut o: Vec<(String, JsonScalar)> = Vec::new();
    let a = ("@id".to_owned(), JsonScalar::Str(url.to_owned()));
    let b = (key.to_owned(), JsonScalar::Str(val.to_owned()));
    let ghost av = (a.0@, a.1@);
    let ghost bv = (b.0@, b.1@);
    o.push(a);
    o.push(b);
    let r = JsonInner::Object(o);
    assert(o@.map_values(|e: (String, JsonScalar)| (e.0@, e.1@)) =~= seq![av, bv]);
    r
}

/// The JSON-LD context entry of a property.
fn context_entry(url: &str, dt: &DataType) -> (r: JsonInner)
    ensures
        r@ == ctx_entry(url@, dt@),
{
    match dt {
        DataType::AtomicUrl => id_object(url, "@type", "@id"),
        DataType::Date => id_object(url, "@type", "http://www.w3.org/2001/XMLSchema#date"),
        DataType::Integer => id_object(url, "@type", "http://www.w3.org/2001/XMLSchema#integer"),
        DataType::ResourceArray => id_object(url, "@container", "@list"),
        _ => JsonInner::Scalar(JsonScalar::Str(url.to_owned())),
    }
}

/// The JSON value of a read value.
fn json_of_value(nv: NativeValue) -> (r: JsonScalar)
    ensures
        r@ == value_json(nv@),
{
    match nv {
        NativeValue::AtomicUrl(v) => JsonScalar::Str(v),
        NativeValue::Date(v) => JsonScalar::Str(v),
        NativeValue::Integer(n) => JsonScalar::Num(n),
        NativeValue::Markdown(v) => JsonScalar::Str(v),
        NativeValue::ResourceArray(v) => JsonScalar::StrArray(v),
        NativeValue::Slug(v) => JsonScalar::Str(v),
        NativeValue::String(v) => JsonScalar::Str(v),
        NativeValue::Timestamp(n) => JsonScalar::Num(n),
        NativeValue::Unsupported(u) => JsonScalar::Str(u.value),
    }
}

/// The value a subject is sorted by: its value of `property`, or an empty
/// text where it has none.
pub open spec fn sort_key(f: FetchFn, store: StoreView, subject: Seq<char>, property: Seq<char>) -> Seq<char> {
    match answer(f, store, subject) {
        Ok(rv) => match lookup(rv, property) {
            Some(v) => v,
            None => Seq::empty(),
        },
        Err(_) => Seq::empty(),
    }
}

/// The member lists of a collection's pages.
pub open spec fn collection_pages(pages: Seq<Page>) -> Seq<Vec<String>> {
    pages.map_values(|p: Page| p.members)
}

/// A store of Atomic Data: resources by subject, with queries on top.
/// Implementations decide where resources live; the provided methods are
/// written against the four required ones.
pub trait Storelike: Sized {
    /// The resources the store holds, by subject.
    spec fn resources(&self) -> StoreView;

    /// What the store answers when asked for a subject it does not hold:
    /// the implementation decides, as a function of the subject alone (an
    /// error, or a resource it can derive from the subject). A store whose
    /// answer depends on the network, such as one that fetches unknown
    /// subjects over HTTP, cannot meet this contract: fetching belongs
    /// outside the store, which is then given the fetched resource with
    /// `add_resource_string`.
    spec fn fetched() -> FetchFn;

    /// Whether the store takes a write of a resource for a subject while it
    /// holds given resources: the implementation decides (a store that
    /// cannot fail takes every write).
    spec fn accepts() -> AcceptFn;

    /// Adds individual atoms to the store, replacing existing atoms that
    /// share subject and property.
    fn add_atoms(&mut self, atoms: Vec<Atom>) -> (r: AtomicResult<()>)
        ensures
            r is Ok ==> final(self).resources() == apply_atoms(old(self).resources(), atoms_view(atoms@)),
    ;

    /// Replaces the resource of `subject` with `resource`.
    /// It succeeds exactly where the store takes the write; a refused write
    /// leaves the store as it was.
    fn add_resource_string(&mut self, subject: String, resource: &ResourceString) -> (r: AtomicResult<()>)
        ensures
            (r is Ok) == (Self::accepts())(old(self).resources(), subject@, resource@),
            r is Ok ==> final(self).resources() == old(self).resources().insert(subject@, resource@),
            r is Err ==> final(self).resources() == old(self).resources(),
    ;

    /// The resource of `subject`: the one the store holds, or else what
    /// `fetched` answers for the subject (see there: no network fetching).
    fn get_resource_string(&self, subject: &str) -> (r: AtomicResult<ResourceString>)
        ensures
            res_view(r) == answer(Self::fetched(), self.resources(), subject@),
    ;

    /// The root URL where the store is hosted, where deltas should be sent to.
    fn get_base_url(&self) -> (r: Option<String>)
        default_ensures
            r is None,
    {
        None
    }

    /// All resources in the store, each subject once.
    fn all_resources(&self) -> (r: Vec<(String, ResourceString)>)
        ensures
            is_listing(collection_view(r@), self.resources()),
    ;

    /// The property described by the resource at `url`.
    fn get_property(&self, url: &str) -> (r: AtomicResult<Property>)
        ensures
            res_view(r) == spec_get_property(Self::fetched(), self.resources(), url@),
    {
        let resource = self.get_resource_string(url)?;
        property_from_resource(url, &resource)
    }

    /// The shortname of the property at `url`.
    fn property_url_to_shortname(&self, url: &str) -> (r: AtomicResult<String>)
        ensures
            res_view(r) == spec_url_to_shortname(Self::fetched(), self.resources(), url@),
    {
        let resource = self.get_resource_string(url)?;
        match resource.get(urls::SHORTNAME) {
            Some(s) => Ok(s.clone()),
            None => Err(AtomicError::ShortnameNotFound(url.to_owned())),
        }
    }

    /// The URL of the property of `resource` whose shortname is `shortname`:
    /// the first in the resource's order.
    fn property_shortname_to_url(&self, shortname: &str, resource: &ResourceString) -> (r: AtomicResult<String>)
        ensures
            res_view(r) == spec_shortname_to_url(Self::fetched(), self.resources(), shortname@, rv_keys(resource@)),
    {
        let n = resource.len();
        let ghost props = rv_keys(resource@);
        assert(props.skip(0) =~= props);
        let mut i: usize = 0;
        while i < n
            invariant
                n == resource@.len(),
                i <= n,
                props == rv_keys(resource@),
                spec_shortname_to_url(Self::fetched(), self.resources(), shortname@, props)
                    == spec_shortname_to_url(Self::fetched(), self.resources(), shortname@, props.skip(i as int)),
            decreases n - i,
        {
            let (prop_url, _value) = resource.entry(i);
            assert(props.skip(i as int)[0] == prop_url@);
            assert(props.skip(i as int).drop_first() =~= props.skip(i + 1));
            let prop_resource = self.get_resource_string(prop_url.as_str())?;
            let prop_shortname = match prop_resource.get(urls::SHORTNAME) {
                Some(s) => s,
                None => return Err(AtomicError::ShortnameNotFound(prop_url.clone())),
            };
            if str_eq(prop_shortname.as_str(), shortname) {
                return Ok(prop_url.clone());
            }
            i = i + 1;
        }
        assert(props.skip(n as int) =~= Seq::<Seq<char>>::empty());
        Err(AtomicError::ShortnameUnknown(shortname.to_owned()))
    }

    /// The resource of `subject` as AD3: one JSON array per atom, one per line.
    fn resource_to_ad3(&self, subject: &str) -> (r: AtomicResult<String>)
        ensures
            match (r, answer(Self::fetched(), self.resources(), subject@)) {
                (Err(x), Err(e)) => x@ == e,
                (Ok(text), Ok(rv)) => {
                    &&& ad3_lines(subject@, rv) == text@
                    // Reading the text back as AD3 gives the resource's atoms.
                    &&& ad3_atoms(text_lines(text@))
                        == Ok::<Seq<(Seq<char>, Seq<char>, Seq<char>)>, ErrorView>(rv_atoms(subject@, rv))
                },
                _ => false,
            },
    {
        let mut string = String::new();
        let resource = self.get_resource_string(subject)?;
        proof {
            let e = Seq::<char>::empty();
            assert(string@ =~= e);
            crate::text::lemma_split_on_len(e, '\n');
            assert(text_lines(e) =~= seq![e]);
            assert(seq![e].drop_last() =~= Seq::<Seq<char>>::empty());
            assert(seq![e].last() == e);
            assert(ad3_line(e) == Ok::<Option<(Seq<char>, Seq<char>, Seq<char>)>, ErrorView>(None));
            assert(ad3_atoms(Seq::<Seq<char>>::empty()) == Ok::<Seq<(Seq<char>, Seq<char>, Seq<char>)>, ErrorView>(Seq::empty()));
            assert(ad3_atoms(seq![e]) == Ok::<Seq<(Seq<char>, Seq<char>, Seq<char>)>, ErrorView>(Seq::empty()));
            assert(rv_atoms(subject@, resource@.take(0)) =~= Seq::<(Seq<char>, Seq<char>, Seq<char>)>::empty());
        }
        let n = resource.len();
        let mut i: usize = 0;
        while i < n
            invariant
                n == resource@.len(),
                i <= n,
                ad3_lines(subject@, resource@.take(i as int)) == string@,
                answer(Self::fetched(), self.resources(), subject@) == Ok::<ResourceView, ErrorView>(resource@),
                string@.len() == 0 || string@.last() == '\n',
                ad3_atoms(text_lines(string@)) == Ok::<Seq<(Seq<char>, Seq<char>, Seq<char>)>, ErrorView>(
                    rv_atoms(subject@, resource@.take(i as int)),
                ),
            decreases n - i,
        {
            let (property, value) = resource.entry(i);
            let ghost before = string@;
            assert(resource@.take(i + 1).drop_last() =~= resource@.take(i as int));
            assert(resource@.take(i + 1).last() == resource@[i as int]);
            let triple: Vec<String> = vec![subject.to_owned(), property.clone(), value.clone()];
            assert(triple@.map_values(|x: String| x@) =~= seq![subject@, property@, value@]);
            let line = match json_strings_text(&triple) {
                Ok(line) => line,
                Err(_) => return Err(AtomicError::Serialization),
            };
            string.append(line.as_str());
            push_char(&mut string, '\n');
            proof {
                let a = (subject@, property@, value@);
                assert(seq![a.0, a.1, a.2] =~= seq![subject@, property@, value@]);
                crate::json::lemma_array_text_shape(seq![subject@, property@, value@]);
                assert(ad3_line(line@) == Ok::<Option<(Seq<char>, Seq<char>, Seq<char>)>, ErrorView>(Some(a)));
                assert(line@.last() != '\r');
                lemma_text_lines_step(before, line@);
                assert(string@ =~= before + line@ + seq!['\n']);
                let x = text_lines(before).drop_last();
                assert(text_lines(before) =~= x.push(Seq::<char>::empty()));
                lemma_ad3_atoms_step(x, line@, a);
                assert(rv_atoms(subject@, resource@.take(i + 1)) =~= rv_atoms(subject@, resource@.take(i as int)).push(a));
            }
            i = i + 1;
        }
        assert(resource@.take(n as int) =~= resource@);
        Ok(string)
    }

    /// Adds one atom: the property is set on the resource the store answers
    /// with for the subject, or on a new resource, which then replaces it.
    fn add_atom(&mut self, atom: Atom) -> (r: AtomicResult<()>)
        ensures
            (r is Ok) == (Self::accepts())(
                old(self).resources(),
                atom.subject@,
                atom_resource(Self::fetched(), old(self).resources(), atom@),
            ),
            r is Ok ==> final(self).resources() == store_add_atom(Self::fetched(), old(self).resources(), atom@),
            r is Err ==> final(self).resources() == old(self).resources(),
    {
        match self.get_resource_string(atom.subject.as_str()) {
            Ok(mut resource) => {
                resource.insert(atom.property, atom.value);
                self.add_resource_string(atom.subject, &resource)?;
            },
            Err(_) => {
                let mut resource = ResourceString::new();
                resource.insert(atom.property, atom.value);
                self.add_resource_string(atom.subject, &resource)?;
            },
        }
        Ok(())
    }

    /// Stores `resource`, its values written as text, in place of the
    /// resource of its subject. It succeeds exactly where the store takes
    /// the write.
    fn add_resource(&mut self, resource: &Resource) -> (r: AtomicResult<()>)
        ensures
            (r is Ok) == (Self::accepts())(old(self).resources(), resource@.0, plain_view(resource@.1)),
            r is Ok ==> final(self).resources() == old(self).resources().insert(resource@.0, plain_view(resource@.1)),
            r is Err ==> final(self).resources() == old(self).resources(),
    {
        self.add_resource_string(resource.get_subject().clone(), &resource.to_plain())?;
        Ok(())
    }

    /// The resource of `subject` with its values read as `spec_get_resource`
    /// describes, or `None` where a value does not fit its property's datatype.
    fn read_resource(&self, subject: &str) -> (r: Option<AtomicResult<Resource>>)
        ensures
            resource_result_view(r) == spec_get_resource(Self::fetched(), self.resources(), subject@),
    {
        let resource_string = match self.get_resource_string(subject) {
            Ok(rs) => rs,
            Err(e) => return Some(Err(e)),
        };
        let ghost rv = resource_string@;
        let mut res = Resource::new(subject.to_owned());
        assert(rv.take(0) =~= Seq::<(Seq<char>, Seq<char>)>::empty());
        let n = resource_string.len();
        let mut i: usize = 0;
        while i < n
            invariant
                n == rv.len(),
                rv == resource_string@,
                i <= n,
                answer(Self::fetched(), self.resources(), subject@) == Ok::<ResourceView, ErrorView>(rv),
                res@.0 == subject@,
                spec_native_values(Self::fetched(), self.resources(), rv.take(i as int)) == Some(
                    Ok::<PropValsView, ErrorView>(res@.1),
                ),
            decreases n - i,
        {
            let (prop, val) = resource_string.entry(i);
            assert(rv.take(i + 1).drop_last() =~= rv.take(i as int));
            assert(rv.take(i + 1).last() == rv[i as int]);
            let property = match self.get_property(prop.as_str()) {
                Ok(p) => p,
                Err(e) => {
                    proof {
                        lemma_native_values_stop(Self::fetched(), self.resources(), rv, i + 1);
                    }
                    return Some(Err(e));
                },
            };
            let value = match NativeValue::new(val.as_str(), &property.data_type) {
                Ok(v) => v,
                Err(_) => {
                    proof {
                        lemma_native_values_stop(Self::fetched(), self.resources(), rv, i + 1);
                    }
                    return None;
                },
            };
            let ghost before = res@.1;
            res.propvals.push((prop.clone(), value));
            assert(res@.1 =~= before.push((prop@, value@)));
            i = i + 1;
        }
        assert(rv.take(n as int) =~= rv);
        Some(Ok(res))
    }

    /// The resource of `subject` with its values read by the datatypes of
    /// their properties. Every value must fit its property's datatype.
    fn get_resource(&self, subject: &str) -> (r: AtomicResult<Resource>)
        requires
            spec_get_resource(Self::fetched(), self.resources(), subject@) is Some,
        ensures
            resource_result_view(Some(r)) == spec_get_resource(Self::fetched(), self.resources(), subject@),
    {
        match self.read_resource(subject) {
            Some(r) => r,
            None => Err(AtomicError::NotFound(subject.to_owned())),
        }
    }

    /// The resource of `subject` as `get_resource` gives it, or `None` where
    /// one of its values does not fit its property's datatype.
    fn try_get_resource(&self, subject: &str) -> (r: Option<AtomicResult<Resource>>)
        ensures
            resource_result_view(r) == spec_get_resource(Self::fetched(), self.resources(), subject@),
    {
        match self.read_resource(subject) {
            Some(_) => Some(self.get_resource(subject)),
            None => None,
        }
    }

    /// Adds the atoms written in the AD3 text `ad3` to the store, as
    /// `add_atoms` does. Text that does not read as AD3 is refused with the
    /// parser's error, and the store is left as it was.
    fn populate(&mut self, ad3: &str) -> (r: AtomicResult<()>)
        ensures
            match ad3_atoms(text_lines(ad3@)) {
                Err(e) => {
                    &&& r matches Err(x) && x@ == e
                    &&& final(self).resources() == old(self).resources()
                },
                Ok(atoms) => r is Ok ==> final(self).resources() == apply_atoms(old(self).resources(), atoms),
            },
    {
        let atoms = parse_ad3(ad3)?;
        self.add_atoms(atoms)?;
        Ok(())
    }

    /// Triple pattern fragments: the atoms of the store that match the given
    /// subject, property and value, any of which may be left open. Where a
    /// subject is given, only its resource is searched; an unknown subject
    /// gives no atoms. An atom matches when its property is the given one,
    /// where a property is given, and its value matches the given one, where
    /// a value is given. A value matches an equal value, and any JSON array
    /// of strings that holds it. With nothing given, every atom is returned.
    fn tpf(&self, q_subject: Option<&str>, q_property: Option<&str>, q_value: Option<&str>) -> (r: AtomicResult<Vec<Atom>>)
        ensures
            match r {
                Err(_) => false,
                Ok(v) => {
                    &&& q_subject matches Some(s) ==> atoms_view(v@) == spec_tpf_subject(
                        Self::fetched(),
                        self.resources(),
                        s@,
                        opt_str_view(q_property),
                        opt_str_view(q_value),
                    )
                    &&& q_subject is None ==> exists|c: Seq<(Seq<char>, ResourceView)>|
                        is_listing(c, self.resources()) && atoms_view(v@) == spec_tpf_all(
                            c,
                            opt_str_view(q_property),
                            opt_str_view(q_value),
                        )
                },
            },
    {
        let mut vec: Vec<Atom> = Vec::new();
        let hassub = q_subject.is_some();
        let hasprop = q_property.is_some();
        let hasval = q_value.is_some();
        if !hassub && !hasprop && !hasval {
            let all = self.all_resources();
            let ghost c = collection_view(all@);
            let n = all.len();
            let mut i: usize = 0;
            while i < n
                invariant
                    n == all@.len(),
                    c == collection_view(all@),
                    i <= n,
                    atoms_view(vec@) == collection_atoms(c.take(i as int)),
                decreases n - i,
            {
                assert(c.take(i + 1).drop_last() =~= c.take(i as int));
                assert(c.take(i + 1).last() == c[i as int]);
                push_all_atoms(&mut vec, all[i].0.as_str(), &all[i].1);
                i = i + 1;
            }
            assert(c.take(n as int) =~= c);
            return Ok(vec);
        }
        match q_subject {
            Some(sub) => match self.get_resource_string(sub) {
                Ok(resource) => {
                    if hasprop || hasval {
                        find_in_resource(&mut vec, sub, &resource, q_property, q_value);
                        assert(atoms_view(vec@) =~= matching_atoms(sub@, resource@, opt_str_view(q_property), opt_str_view(q_value)));
                        Ok(vec)
                    } else {
                        Ok(resource_to_atoms(sub, &resource))
                    }
                },
                Err(_) => {
                    assert(atoms_view(vec@) =~= Seq::<(Seq<char>, Seq<char>, Seq<char>)>::empty());
                    Ok(vec)
                },
            },
            None => {
                let all = self.all_resources();
                let ghost c = collection_view(all@);
                let n = all.len();
                let mut i: usize = 0;
                while i < n
                    invariant
                        n == all@.len(),
                        c == collection_view(all@),
                        i <= n,
                        atoms_view(vec@) == collection_matches(c.take(i as int), opt_str_view(q_property), opt_str_view(q_value)),
                    decreases n - i,
                {
                    assert(c.take(i + 1).drop_last() =~= c.take(i as int));
                    assert(c.take(i + 1).last() == c[i as int]);
                    find_in_resource(&mut vec, all[i].0.as_str(), &all[i].1, q_property, q_value);
                    i = i + 1;
                }
                assert(c.take(n as int) =~= c);
                Ok(vec)
            },
        }
    }

    /// The properties listed by the JSON array `text`, or `None` where the text
    /// is not such an array or one of them cannot be read.
    fn read_property_list(&self, text: &str) -> (r: Option<Vec<Property>>)
        ensures
            match r {
                Some(ps) => spec_property_list(Self::fetched(), self.resources(), Some(text@)) == Some(properties_view(ps@)),
                None => spec_property_list(Self::fetched(), self.resources(), Some(text@)) is None,
            },
    {
        let urls = match parse_json_array(text) {
            Ok(v) => v,
            Err(_) => return None,
        };
        let ghost uv = urls@.map_values(|s: String| s@);
        let n = urls.len();
        let mut properties: Vec<Property> = Vec::new();
        let mut i: usize = 0;
        while i < n
            invariant
                n == urls@.len(),
                uv == urls@.map_values(|s: String| s@),
                json_string_array(text@) == Some(uv),
                i <= n,
                spec_properties(Self::fetched(), self.resources(), uv.take(i as int)) == Some(properties_view(properties@)),
            decreases n - i,
        {
            assert(uv.take(i + 1).drop_last() =~= uv.take(i as int));
            assert(uv.take(i + 1).last() == urls[i as int]@);
            match self.get_property(urls[i].as_str()) {
                Ok(p) => {
                    let ghost before = properties_view(properties@);
                    properties.push(p);
                    assert(properties_view(properties@) =~= before.push(p@));
                },
                Err(_) => {
                    proof {
                        lemma_properties_prefix(Self::fetched(), self.resources(), uv, i + 1);
                    }
                    return None;
                },
            }
            i = i + 1;
        }
        assert(uv.take(n as int) =~= uv);
        Some(properties)
    }

    /// The class described by the resource of `subject`, or `None` where reading it fails.
    fn read_class(&self, subject: &str) -> (r: Option<Class>)
        ensures
            opt_class_view(r) == spec_get_class(Self::fetched(), self.resources(), subject@),
    {
        let class_strings = match self.get_resource_string(subject) {
            Ok(r) => r,
            Err(_) => return None,
        };
        let shortname = match class_strings.get(urls::SHORTNAME) {
            Some(s) => s,
            None => return None,
        };
        let description = match class_strings.get(urls::DESCRIPTION) {
            Some(d) => d,
            None => return None,
        };
        let required = match class_strings.get(urls::REQUIRES) {
            Some(text) => match self.read_property_list(text.as_str()) {
                Some(ps) => ps,
                None => return None,
            },
            None => Vec::new(),
        };
        let recommended = match class_strings.get(urls::RECOMMENDS) {
            Some(text) => match self.read_property_list(text.as_str()) {
                Some(ps) => ps,
                None => return None,
            },
            None => Vec::new(),
        };
        let class = Class {
            required,
            recommended,
            shortname: shortname.clone(),
            subject: subject.to_owned(),
            description: description.clone(),
        };
        assert(class@.required =~= spec_property_list(Self::fetched(), self.resources(), lookup(class_strings@, urls::REQUIRES@))->0);
        assert(class@.recommended =~= spec_property_list(Self::fetched(), self.resources(), lookup(class_strings@, urls::RECOMMENDS@))->0);
        Some(class)
    }

    /// The class described by the resource of `subject`, with the properties
    /// it requires and recommends. The class must be readable: its resource,
    /// shortname and description present, and its lists of properties valid
    /// JSON arrays of readable properties.
    fn get_class(&self, subject: &str) -> (r: AtomicResult<Class>)
        requires
            spec_get_class(Self::fetched(), self.resources(), subject@) is Some,
        ensures
            r matches Ok(c) && Some(c@) == spec_get_class(Self::fetched(), self.resources(), subject@),
    {
        match self.read_class(subject) {
            Some(c) => Ok(c),
            None => Err(AtomicError::NotFound(subject.to_owned())),
        }
    }

    /// All classes (`isA`) of `subject`; none where it has no `isA`. Every
    /// class it names must be readable, as for `get_class`.
    fn get_classes_for_subject(&self, subject: &str) -> (r: AtomicResult<Vec<Class>>)
        requires
            spec_classes_for_subject(Self::fetched(), self.resources(), subject@) is Some,
        ensures
            Some(classes_result_view(r)) == spec_classes_for_subject(Self::fetched(), self.resources(), subject@),
    {
        let resource = self.get_resource_string(subject)?;
        let classes_array = match resource.get(urls::IS_A) {
            Some(v) => v,
            None => {
                let none: Vec<Class> = Vec::new();
                assert(classes_view(none@) =~= Seq::<ClassView>::empty());
                return Ok(none);
            },
        };
        let native = NativeValue::new(classes_array.as_str(), &DataType::ResourceArray)?;
        let vector = match native {
            NativeValue::ResourceArray(vec) => vec,
            _ => return Err(AtomicError::NotAnArray),
        };
        let ghost uv = vector@.map_values(|s: String| s@);
        let n = vector.len();
        let mut classes: Vec<Class> = Vec::new();
        let mut i: usize = 0;
        while i < n
            invariant
                n == vector@.len(),
                uv == vector@.map_values(|s: String| s@),
                spec_classes(Self::fetched(), self.resources(), uv) is Some,
                i <= n,
                spec_classes(Self::fetched(), self.resources(), uv.take(i as int)) == Some(classes_view(classes@)),
            decreases n - i,
        {
            assert(uv.take(i + 1).drop_last() =~= uv.take(i as int));
            assert(uv.take(i + 1).last() == vector[i as int]@);
            proof {
                if spec_get_class(Self::fetched(), self.resources(), vector[i as int]@) is None {
                    lemma_classes_prefix(Self::fetched(), self.resources(), uv, i + 1);
                }
            }
            let class = self.get_class(vector[i].as_str())?;
            let ghost before = classes_view(classes@);
            classes.push(class);
            assert(classes_view(classes@) =~= before.push(class@));
            i = i + 1;
        }
        assert(uv.take(n as int) =~= uv);
        Ok(classes)
    }

    /// Whether `get_classes_for_subject` can read every class it would be asked for.
    fn classes_for_subject_readable(&self, subject: &str) -> (b: bool)
        ensures
            b == spec_classes_for_subject(Self::fetched(), self.resources(), subject@) is Some,
    {
        let resource = match self.get_resource_string(subject) {
            Ok(r) => r,
            Err(_) => return true,
        };
        let classes_array = match resource.get(urls::IS_A) {
            Some(v) => v,
            None => return true,
        };
        let vector = match NativeValue::new(classes_array.as_str(), &DataType::ResourceArray) {
            Ok(NativeValue::ResourceArray(vec)) => vec,
            _ => return true,
        };
        let ghost uv = vector@.map_values(|s: String| s@);
        let ghost whole = spec_classes_for_subject(Self::fetched(), self.resources(), subject@);
        assert(whole is Some <==> spec_classes(Self::fetched(), self.resources(), uv) is Some);
        let n = vector.len();
        let mut i: usize = 0;
        while i < n
            invariant
                n == vector@.len(),
                uv == vector@.map_values(|s: String| s@),
                whole == spec_classes_for_subject(Self::fetched(), self.resources(), subject@),
                whole is Some <==> spec_classes(Self::fetched(), self.resources(), uv) is Some,
                i <= n,
                spec_classes(Self::fetched(), self.resources(), uv.take(i as int)) is Some,
            decreases n - i,
        {
            assert(uv.take(i + 1).drop_last() =~= uv.take(i as int));
            assert(uv.take(i + 1).last() == vector[i as int]@);
            if self.read_class(vector[i].as_str()).is_none() {
                proof {
                    lemma_classes_prefix(Self::fetched(), self.resources(), uv, i + 1);
                }
                return false;
            }
            i = i + 1;
        }
        assert(uv.take(n as int) =~= uv);
        true
    }

    /// The classes of `subject` as `get_classes_for_subject` gives them, or
    /// `None` where one of them cannot be read.
    fn try_get_classes_for_subject(&self, subject: &str) -> (r: Option<AtomicResult<Vec<Class>>>)
        ensures
            match r {
                Some(res) => spec_classes_for_subject(Self::fetched(), self.resources(), subject@) == Some(classes_result_view(res)),
                None => spec_classes_for_subject(Self::fetched(), self.resources(), subject@) is None,
            },
    {
        if self.classes_for_subject_readable(subject) {
            Some(self.get_classes_for_subject(subject))
        } else {
            None
        }
    }

    /// Applies the lines of a delta to the store, in order: an insert checks
    /// its value against the datatype of its property and adds the atom; a
    /// line with another method than insert or delete is skipped. Every
    /// inserted property must be readable and no line may delete.
    fn process_delta(&mut self, delta: Delta) -> (r: AtomicResult<()>)
        requires
            !(delta_run(Self::fetched(), Self::accepts(), old(self).resources(), delta.subject@, lines_view(delta.lines@)) is Halts),
        ensures
            delta_result_holds(
                delta_run(Self::fetched(), Self::accepts(), old(self).resources(), delta.subject@, lines_view(delta.lines@)),
                r,
                final(self).resources(),
            ),
    {
        let ghost lv = lines_view(delta.lines@);
        let ghost outcome = delta_run(Self::fetched(), Self::accepts(), self.resources(), delta.subject@, lv);
        assert(lv.skip(0) =~= lv);
        let n = delta.lines.len();
        let mut i: usize = 0;
        while i < n
            invariant
                n == delta.lines@.len(),
                lv == lines_view(delta.lines@),
                i <= n,
                !(outcome is Halts),
                outcome == delta_run(Self::fetched(), Self::accepts(), old(self).resources(), delta.subject@, lv),
                outcome == delta_run(Self::fetched(), Self::accepts(), self.resources(), delta.subject@, lv.skip(i as int)),
            decreases n - i,
        {
            let line = &delta.lines[i];
            assert(lv.skip(i as int)[0] == line@);
            assert(lv.skip(i as int).drop_first() =~= lv.skip(i + 1));
            if str_eq(line.method.as_str(), urls::INSERT) || str_eq(line.method.as_str(), "insert") {
                // The precondition makes every inserted property readable.
                let datatype = match self.get_property(line.property.as_str()) {
                    Ok(p) => p.data_type,
                    Err(e) => return Err(e),
                };
                let checked = NativeValue::new(line.value.as_str(), &datatype);
                if checked.is_err() {
                    return match checked {
                        Err(e) => Err(e),
                        Ok(_) => Ok(()),
                    };
                }
                let atom = Atom::new(delta.subject.clone(), line.property.clone(), line.value.clone());
                self.add_atom(atom)?;
            } else if str_eq(line.method.as_str(), urls::DELETE) || str_eq(line.method.as_str(), "delete") {
                // Deleting is not supported; the precondition rules it out.
                return Err(AtomicError::Store(line.method.clone()));
            }
            i = i + 1;
        }
        assert(lv.skip(n as int) =~= Seq::<DeltaLineView>::empty());
        Ok(())
    }

    /// Applies a delta as `process_delta` does, where every line is an
    /// insert or a method other than delete and every inserted property is
    /// readable now and is not the delta's own subject; `None`, with the
    /// store untouched, where that does not hold.
    fn try_process_delta(&mut self, delta: Delta) -> (r: Option<AtomicResult<()>>)
        ensures
            r is None <==> !delta_properties_ready(Self::fetched(), old(self).resources(), delta.subject@, lines_view(delta.lines@)),
            r is None ==> final(self).resources() == old(self).resources(),
            r matches Some(res) ==> delta_result_holds(
                delta_run(Self::fetched(), Self::accepts(), old(self).resources(), delta.subject@, lines_view(delta.lines@)),
                res,
                final(self).resources(),
            ),
    {
        let ghost lv = lines_view(delta.lines@);
        let n = delta.lines.len();
        let mut i: usize = 0;
        while i < n
            invariant
                n == delta.lines@.len(),
                lv == lines_view(delta.lines@),
                i <= n,
                self.resources() == old(self).resources(),
                delta_properties_ready(Self::fetched(), self.resources(), delta.subject@, lv.take(i as int)),
            decreases n - i,
        {
            let line = &delta.lines[i];
            assert(lv.take(i + 1)[i as int] == line@);
            let method = line.method.as_str();
            assert(lv[i as int] == line@);
            if str_eq(method, urls::DELETE) || str_eq(method, "delete") {
                assert(is_delete(lv[i as int].method));
                return None;
            }
            if str_eq(method, urls::INSERT) || str_eq(method, "insert") {
                if str_eq(line.property.as_str(), delta.subject.as_str()) || self.get_property(line.property.as_str()).is_err() {
                    assert(is_insert(lv[i as int].method));
                    assert(!delta_properties_ready(Self::fetched(), self.resources(), delta.subject@, lv));
                    return None;
                }
            }
            assert forall|j: int| 0 <= j < i + 1 implies {
                &&& !is_delete(#[trigger] lv.take(i + 1)[j].method)
                &&& is_insert(lv.take(i + 1)[j].method) ==> lv.take(i + 1)[j].property != delta.subject@
                    && spec_get_property(Self::fetched(), self.resources(), lv.take(i + 1)[j].property) is Ok
            } by {
                if j < i {
                    assert(lv.take(i + 1)[j] == lv.take(i as int)[j]);
                }
            }
            i = i + 1;
        }
        assert(lv.take(n as int) =~= lv);
        proof {
            lemma_ready_never_halts(Self::fetched(), Self::accepts(), self.resources(), delta.subject@, lv);
        }
        Some(self.process_delta(delta))
    }

    /// Follows an Atomic Path such as `https://example.com description` or
    /// `thing isa 0`: the first item is the starting resource, each further
    /// item a property (by URL or shortname) or an index into the array value
    /// reached last. `None` where the path indexes an array that is not one
    /// or past its end, or names a property the resource does not have.
    fn walk_path(&self, atomic_path: &str, mapping: Option<&Mapping>) -> (r: Option<AtomicResult<PathReturn>>)
        ensures
            path_result_view(r) == spec_get_path(Self::fetched(), self.resources(), atomic_path@, opt_mapping_view(mapping)),
    {
        let path_items = split_char(atomic_path, ' ');
        let ghost items = split_on(atomic_path@, ' ');
        proof {
            lemma_split_on_len(atomic_path@, ' ');
        }
        assert(path_items@[0]@ == items[0]);
        let first_item = path_items[0].clone();
        let id_url = match mapping {
            Some(m) => match m.try_mapping_or_url(first_item.as_str()) {
                Some(u) => u,
                None => return Some(Err(AtomicError::NoMapping(first_item))),
            },
            None => first_item,
        };
        if path_items.len() == 1 {
            return Some(Ok(PathReturn::Subject(id_url)));
        }
        let mut subject = id_url;
        let mut resource = match self.get_resource_string(subject.as_str()) {
            Ok(r) => r,
            Err(e) => return Some(Err(e)),
        };
        let mut current = PathReturn::Subject(subject.clone());
        let ghost whole = spec_get_path(Self::fetched(), self.resources(), atomic_path@, opt_mapping_view(mapping));
        assert(items.drop_first() =~= items.skip(1));
        let n = path_items.len();
        let mut k: usize = 1;
        while k < n
            invariant
                n == path_items@.len(),
                items == path_items@.map_values(|p: String| p@),
                1 <= k <= n,
                whole == spec_get_path(Self::fetched(), self.resources(), atomic_path@, opt_mapping_view(mapping)),
                whole == path_walk(Self::fetched(), self.resources(), subject@, resource@, current@, items.skip(k as int)),
            decreases n - k,
        {
            let item = path_items[k].as_str();
            let ghost rest = items.skip(k + 1);
            assert(items.skip(k as int)[0] == item@);
            assert(items.skip(k as int).drop_first() =~= rest);
            if item.is_empty() {
                k = k + 1;
                continue;
            }
            match parse_u32(item) {
                Some(i) => {
                    let property_subject = match &current {
                        PathReturn::Atom(atom) => atom.property.subject.clone(),
                        PathReturn::Subject(_) => return Some(Err(AtomicError::IndexOnResource)),
                    };
                    let array_string = match resource.get(property_subject.as_str()) {
                        Some(a) => a,
                        None => return Some(Err(AtomicError::PropertyNotFound(property_subject))),
                    };
                    let vector = match parse_json_array(array_string.as_str()) {
                        Ok(v) => v,
                        Err(_) => return None,
                    };
                    if vector.len() <= i as usize {
                        return None;
                    }
                    let url = vector[i as usize].clone();
                    let next = match self.get_resource_string(url.as_str()) {
                        Ok(r) => r,
                        Err(e) => return Some(Err(e)),
                    };
                    subject = url;
                    resource = next;
                    current = PathReturn::Subject(subject.clone());
                    k = k + 1;
                    continue;
                },
                None => {},
            }
            match &current {
                PathReturn::Subject(_) => {},
                PathReturn::Atom(_) => return Some(Err(AtomicError::NoMoreLinkedResources)),
            }
            let property_url = if is_url(item) {
                item.to_owned()
            } else {
                match self.property_shortname_to_url(item, &resource) {
                    Ok(u) => u,
                    Err(e) => return Some(Err(e)),
                }
            };
            let value = match resource.get(property_url.as_str()) {
                Some(v) => v.clone(),
                None => return None,
            };
            let property = match self.get_property(property_url.as_str()) {
                Ok(p) => p,
                Err(e) => return Some(Err(e)),
            };
            let atom = match RichAtom::new(subject.clone(), property, value) {
                Ok(a) => a,
                Err(e) => return Some(Err(e)),
            };
            current = PathReturn::Atom(Box::new(atom));
            k = k + 1;
        }
        assert(items.skip(n as int) =~= Seq::<Seq<char>>::empty());
        Some(Ok(current))
    }

    /// Follows an Atomic Path, as `walk_path` describes. The path must not
    /// index an array that is not one or past its end, nor name a property
    /// that its resource does not have.
    fn get_path(&self, atomic_path: &str, mapping: Option<&Mapping>) -> (r: AtomicResult<PathReturn>)
        requires
            !(spec_get_path(Self::fetched(), self.resources(), atomic_path@, opt_mapping_view(mapping)) is Halts),
        ensures
            path_result_view(Some(r)) == spec_get_path(Self::fetched(), self.resources(), atomic_path@, opt_mapping_view(mapping)),
    {
        match self.walk_path(atomic_path, mapping) {
            Some(r) => r,
            None => Err(AtomicError::IndexOnResource),
        }
    }

    /// Follows an Atomic Path as `get_path` does, or gives `None` where the
    /// path cannot be followed as `get_path` needs.
    fn try_get_path(&self, atomic_path: &str, mapping: Option<&Mapping>) -> (r: Option<AtomicResult<PathReturn>>)
        ensures
            path_result_view(r) == spec_get_path(Self::fetched(), self.resources(), atomic_path@, opt_mapping_view(mapping)),
    {
        match self.walk_path(atomic_path, mapping) {
            Some(_) => Some(self.get_path(atomic_path, mapping)),
            None => None,
        }
    }

    /// The collection of the subjects of the atoms that match `tpf`'s
    /// property and value: sorted by each subject's value of `sort_by`
    /// (ascending, or descending where `sort_desc`; a subject without that
    /// property sorts as an empty text) and cut into pages of `page_size`
    /// (all on one page where it is 0), with its counts written as `u8`.
    fn get_collection(&self, tpf: TPFQuery, sort_by: String, sort_desc: bool, page_nr: u8, page_size: u8) -> (r: AtomicResult<Collection>)
        ensures
            match r {
                Err(_) => false,
                Ok(col) => exists|c: Seq<(Seq<char>, ResourceView)>| #![trigger is_listing(c, self.resources())] {
                    let found = atom_subjects(spec_tpf_all(c, opt_string_view(tpf.property), opt_string_view(tpf.value)));
                    let pages = pages_view(collection_pages(col.pages@));
                    let members = concat_pages(pages);
                    &&& is_listing(c, self.resources())
                    &&& members.to_multiset() == found.to_multiset()
                    &&& keys_sorted(
                        members.map_values(|m: Seq<char>| sort_key(Self::fetched(), self.resources(), m, sort_by@)),
                        sort_desc,
                    )
                    &&& paged(pages, members, page_size as nat)
                    &&& col.total_pages == pages.len() as u8
                    &&& col.current_page == page_nr
                    &&& col.total_items == found.len() as u8
                    &&& col.page_size == page_size
                    &&& col.sort_by@ == sort_by@
                    &&& col.sort_desc == sort_desc
                    &&& opt_string_view(col.tpf.subject) == opt_string_view(tpf.subject)
                    &&& opt_string_view(col.tpf.property) == opt_string_view(tpf.property)
                    &&& opt_string_view(col.tpf.value) == opt_string_view(tpf.value)
                },
            },
    {
        let atoms = self.tpf(None, opt_as_str(&tpf.property), opt_as_str(&tpf.value))?;
        let ghost c = choose|c: Seq<(Seq<char>, ResourceView)>| is_listing(c, self.resources()) && atoms_view(atoms@) == spec_tpf_all(
            c,
            opt_string_view(tpf.property),
            opt_string_view(tpf.value),
        );
        proof {
            lemma_tpf_all_subjects_stored(c, self.resources(), opt_string_view(tpf.property), opt_string_view(tpf.value));
        }
        let ghost subs = atom_subjects(atoms_view(atoms@));
        let ghost keyed = subs.map_values(|m: Seq<char>| (sort_key(Self::fetched(), self.resources(), m, sort_by@), m));
        let n = atoms.len();
        let mut items: Vec<(String, String)> = Vec::new();
        let mut j: usize = 0;
        while j < n
            invariant
                n == atoms@.len(),
                subs == atom_subjects(atoms_view(atoms@)),
                keyed == subs.map_values(|m: Seq<char>| (sort_key(Self::fetched(), self.resources(), m, sort_by@), m)),
                atoms_view(atoms@) == spec_tpf_all(c, opt_string_view(tpf.property), opt_string_view(tpf.value)),
                forall|k: int| 0 <= k < subs.len() ==> self.resources().contains_key(#[trigger] subs[k]),
                j <= n,
                pairs_view(items@) =~= keyed.take(j as int),
            decreases n - j,
        {
            let subject = atoms[j].subject.clone();
            assert(subs[j as int] == subject@);
            let resource = match self.get_resource_string(subject.as_str()) {
                Ok(res) => res,
                Err(e) => return Err(e),
            };
            let key = match resource.get(sort_by.as_str()) {
                Some(v) => v.clone(),
                None => String::new(),
            };
            let ghost before = pairs_view(items@);
            items.push((key, subject));
            assert(pairs_view(items@) =~= before.push((key@, subject@)));
            assert(keyed[j as int] == (key@, subject@));
            j = j + 1;
        }
        assert(keyed.take(n as int) =~= keyed);
        assert(pair_subjects(keyed) =~= subs);
        let sorted = sort_pairs(items, sort_desc);
        let ghost sv = pairs_view(sorted@);
        let m = sorted.len();
        let mut members: Vec<String> = Vec::new();
        let mut i: usize = 0;
        while i < m
            invariant
                m == sorted@.len(),
                sv == pairs_view(sorted@),
                i <= m,
                members@.map_values(|x: String| x@) =~= pair_subjects(sv).take(i as int),
            decreases m - i,
        {
            let ghost before = members@.map_values(|x: String| x@);
            let x = sorted[i].1.clone();
            members.push(x);
            assert(members@.map_values(|x: String| x@) =~= before.push(x@));
            i = i + 1;
        }
        assert(pair_subjects(sv).take(m as int) =~= pair_subjects(sv));
        let ghost mv = pair_subjects(sv);
        proof {
            let keys_of = mv.map_values(|x: Seq<char>| sort_key(Self::fetched(), self.resources(), x, sort_by@));
            assert forall|k: int| 0 <= k < keys_of.len() implies keys_of[k] == pair_keys(sv)[k] by {
                assert(keyed.contains(sv[k]));
                let w = choose|w: int| 0 <= w < keyed.len() && keyed[w] == sv[k];
            }
            assert(keys_of =~= pair_keys(sv));
        }
        let mut page_vecs = paginate(members, page_size as usize);
        let ghost all_pages = pages_view(page_vecs@);
        let total_pages = page_vecs.len() as u8;
        let mut pages: Vec<Page> = Vec::new();
        while page_vecs.len() > 0
            invariant
                pages_view(collection_pages(pages@)) + pages_view(page_vecs@) == all_pages,
            decreases page_vecs.len(),
        {
            let ghost before = pages_view(collection_pages(pages@));
            let ghost rest = pages_view(page_vecs@);
            let first = page_vecs.remove(0);
            let ghost fv = first@.map_values(|x: String| x@);
            assert(rest[0] == fv);
            assert(pages_view(page_vecs@) =~= rest.drop_first());
            pages.push(Page { members: first });
            assert(pages_view(collection_pages(pages@)) =~= before.push(fv));
        }
        assert(pages_view(collection_pages(pages@)) =~= all_pages);
        Ok(
            Collection {
                tpf,
                total_pages,
                pages,
                sort_by,
                sort_desc,
                current_page: page_nr,
                total_items: n as u8,
                page_size,
            },
        )
    }

    /// Serialises the resource at `resource_url` to a JSON object keyed by
    /// the shortnames of its properties; for JSON-LD, with an `@context`
    /// entry per property and the `@id`. `None` where a value does not fit
    /// the datatype of its property. The depth is not used yet.
    fn build_resource_json(&self, resource_url: &str, _depth: u8, json_ld: bool) -> (r: Option<AtomicResult<String>>)
        ensures
            json_result_view(r) == spec_resource_to_json(Self::fetched(), self.resources(), resource_url@, json_ld),
    {
        let resource = match self.get_resource_string(resource_url) {
            Ok(r) => r,
            Err(e) => return Some(Err(e)),
        };
        let mut root: Vec<(String, JsonMember)> = Vec::new();
        let mut context: Vec<(String, JsonInner)> = Vec::new();
        assert(resource@.take(0) =~= Seq::<(Seq<char>, Seq<char>)>::empty());
        assert(members_view(root@) =~= Seq::<(Seq<char>, JsonMemberView)>::empty());
        assert(inners_view(context@) =~= Seq::<(Seq<char>, JsonInnerView)>::empty());
        let n = resource.len();
        let mut i: usize = 0;
        while i < n
            invariant
                n == resource@.len(),
                i <= n,
                answer(Self::fetched(), self.resources(), resource_url@) == Ok::<ResourceView, ErrorView>(resource@),
                json_build(Self::fetched(), self.resources(), resource@.take(i as int), json_ld)
                    == JsonBuild::Built(members_view(root@), inners_view(context@)),
            decreases n - i,
        {
            let (prop_url, value) = resource.entry(i);
            assert(resource@.take(i + 1).drop_last() =~= resource@.take(i as int));
            assert(resource@.take(i + 1).last() == resource@[i as int]);
            let property = match self.get_property(prop_url.as_str()) {
                Ok(p) => p,
                Err(e) => {
                    proof {
                        lemma_json_build_stops(Self::fetched(), self.resources(), resource@, json_ld, i + 1);
                    }
                    return Some(Err(e));
                },
            };
            let native_value = match NativeValue::new(value.as_str(), &property.data_type) {
                Ok(v) => v,
                Err(_) => {
                    proof {
                        lemma_json_build_stops(Self::fetched(), self.resources(), resource@, json_ld, i + 1);
                    }
                    return None;
                },
            };
            if json_ld {
                let entry = context_entry(prop_url.as_str(), &property.data_type);
                let ghost before = inners_view(context@);
                let key = property.shortname.clone();
                context.push((key, entry));
                assert(inners_view(context@) =~= before.push((property.shortname@, entry@)));
            }
            let ghost before_root = members_view(root@);
            let jv = json_of_value(native_value);
            let member = JsonMember::Scalar(jv);
            root.push((property.shortname, member));
            assert(members_view(root@) =~= before_root.push((property@.shortname, member@)));
            i = i + 1;
        }
        assert(resource@.take(n as int) =~= resource@);
        if json_ld {
            let ghost before = members_view(root@);
            let ctx = JsonMember::Object(context);
            let ghost ctx_view = ctx@;
            root.push(("@context".to_owned(), ctx));
            let id = JsonMember::Scalar(JsonScalar::Str(resource_url.to_owned()));
            let ghost id_view = id@;
            root.push(("@id".to_owned(), id));
            assert(members_view(root@) =~= before.push(("@context"@, ctx_view)).push(("@id"@, id_view)));
        }
        match to_json_pretty(&root) {
            Ok(text) => Some(Ok(text)),
            Err(_) => Some(Err(AtomicError::Serialization)),
        }
    }

    /// Serialises a resource to JSON, as `build_resource_json` describes;
    /// the result is the same whatever the depth. Every value must fit the
    /// datatype of its property.
    fn resource_to_json(&self, resource_url: &str, depth: u8, json_ld: bool) -> (r: AtomicResult<String>)
        requires
            !(spec_resource_to_json(Self::fetched(), self.resources(), resource_url@, json_ld) is Halts),
        ensures
            json_result_view(Some(r)) == spec_resource_to_json(Self::fetched(), self.resources(), resource_url@, json_ld),
    {
        match self.build_resource_json(resource_url, depth, json_ld) {
            Some(r) => r,
            None => Err(AtomicError::Serialization),
        }
    }

    /// Serialises a resource to JSON as `resource_to_json` does, or gives
    /// `None` where a value does not fit the datatype of its property; the
    /// result is the same whatever the depth.
    fn try_resource_to_json(&self, resource_url: &str, depth: u8, json_ld: bool) -> (r: Option<AtomicResult<String>>)
        ensures
            json_result_view(r) == spec_resource_to_json(Self::fetched(), self.resources(), resource_url@, json_ld),
    {
        match self.build_resource_json(resource_url, depth, json_ld) {
            Some(_) => Some(self.resource_to_json(resource_url, depth, json_ld)),
            None => None,
        }
    }
}

} // verus!
