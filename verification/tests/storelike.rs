use atomic_lib::urls;
use atomic_lib::{
    Atom, AtomicError, DataType, Delta, DeltaLine, Mapping, NativeValue, PathReturn, ResourceString,
    Store, Storelike, TPFQuery,
};

const AGE: &str = "https://example.com/props/age";
const FRIENDS: &str = "https://example.com/props/friends";
const PERSON: &str = "https://example.com/classes/Person";
const ALICE: &str = "https://example.com/alice";
const BOB: &str = "https://example.com/bob";

fn resource(pairs: &[(&str, &str)]) -> ResourceString {
    let mut r = ResourceString::new();
    for (p, v) in pairs {
        r.insert(p.to_string(), v.to_string());
    }
    r
}

fn add(store: &mut Store, subject: &str, pairs: &[(&str, &str)]) {
    store.add_resource_string(subject.to_string(), &resource(pairs)).unwrap();
}

fn property(store: &mut Store, url: &str, shortname: &str, datatype: &str) {
    add(
        store,
        url,
        &[
            (urls::SHORTNAME, shortname),
            (urls::DESCRIPTION, "a property"),
            (urls::DATATYPE_PROP, datatype),
        ],
    );
}

/// A store with a few properties, a class and two people.
fn people() -> Store {
    let mut store = Store::init();
    property(&mut store, urls::SHORTNAME, "shortname", urls::SLUG);
    property(&mut store, urls::DESCRIPTION, "description", urls::MARKDOWN);
    property(&mut store, urls::IS_A, "is-a", urls::RESOURCE_ARRAY);
    property(&mut store, AGE, "age", urls::INTEGER);
    property(&mut store, FRIENDS, "friends", urls::RESOURCE_ARRAY);
    add(
        &mut store,
        PERSON,
        &[
            (urls::SHORTNAME, "person"),
            (urls::DESCRIPTION, "A human"),
            (urls::REQUIRES, "[\"https://example.com/props/age\"]"),
        ],
    );
    add(
        &mut store,
        ALICE,
        &[
            (urls::DESCRIPTION, "Alice"),
            (AGE, "30"),
            (urls::IS_A, "[\"https://example.com/classes/Person\"]"),
            (FRIENDS, "[\"https://example.com/bob\"]"),
        ],
    );
    add(&mut store, BOB, &[(urls::DESCRIPTION, "Bob"), (AGE, "25")]);
    store
}

#[test]
fn resource_insert_replaces_in_place() {
    let mut r = resource(&[("a", "1"), ("b", "2")]);
    assert_eq!(r.insert("a".to_string(), "3".to_string()), Some("1".to_string()));
    assert_eq!(r.insert("c".to_string(), "4".to_string()), None);
    assert_eq!(r.len(), 3);
    assert_eq!(r.entry(0), (&"a".to_string(), &"3".to_string()));
    assert_eq!(r.entry(2), (&"c".to_string(), &"4".to_string()));
    assert_eq!(r.get("b"), Some(&"2".to_string()));
    assert_eq!(r.get("z"), None);
}

#[test]
fn read_after_write_gives_back_the_resource() {
    let mut store = Store::init();
    let r = resource(&[("p", "v")]);
    store.add_resource_string("s".to_string(), &r).unwrap();
    assert_eq!(store.get_resource_string("s").unwrap(), r);
    let r2 = resource(&[("q", "w")]);
    store.add_resource_string("s".to_string(), &r2).unwrap();
    assert_eq!(store.get_resource_string("s").unwrap(), r2);
    assert_eq!(store.get_resource_string("t"), Err(AtomicError::NotFound("t".to_string())));
}

#[test]
fn add_atoms_last_atom_wins() {
    let mut store = Store::init();
    store
        .add_atoms(vec![
            Atom::new("s".into(), "p".into(), "1".into()),
            Atom::new("s".into(), "q".into(), "2".into()),
            Atom::new("s".into(), "p".into(), "3".into()),
            Atom::new("t".into(), "p".into(), "4".into()),
        ])
        .unwrap();
    let s = store.get_resource_string("s").unwrap();
    assert_eq!(s, resource(&[("p", "3"), ("q", "2")]));
    assert_eq!(store.get_resource_string("t").unwrap(), resource(&[("p", "4")]));
    assert_eq!(store.all_resources().len(), 2);
}

#[test]
fn add_atom_overwrites_or_creates() {
    let mut store = Store::init();
    add(&mut store, "s", &[("p", "1"), ("q", "2")]);
    store.add_atom(Atom::new("s".into(), "p".into(), "9".into())).unwrap();
    store.add_atom(Atom::new("n".into(), "p".into(), "1".into())).unwrap();
    assert_eq!(store.get_resource_string("s").unwrap(), resource(&[("p", "9"), ("q", "2")]));
    assert_eq!(store.get_resource_string("n").unwrap(), resource(&[("p", "1")]));
}

#[test]
fn get_base_url_defaults_to_none() {
    assert_eq!(Store::init().get_base_url(), None);
}

#[test]
fn get_property_reads_the_property_resource() {
    let store = people();
    let p = store.get_property(AGE).unwrap();
    assert_eq!(p.shortname, "age");
    assert_eq!(p.subject, AGE);
    assert_eq!(p.data_type, DataType::Integer);
    assert_eq!(p.description, "a property");
    assert_eq!(p.class_type, None);
}

#[test]
fn get_property_errors() {
    let mut store = Store::init();
    add(&mut store, "p1", &[(urls::SHORTNAME, "x"), (urls::DESCRIPTION, "d")]);
    add(&mut store, "p2", &[(urls::DATATYPE_PROP, urls::STRING), (urls::DESCRIPTION, "d")]);
    add(&mut store, "p3", &[(urls::DATATYPE_PROP, "https://example.com/odd"), (urls::SHORTNAME, "x")]);
    add(
        &mut store,
        "p4",
        &[
            (urls::DATATYPE_PROP, "https://example.com/odd"),
            (urls::SHORTNAME, "x"),
            (urls::DESCRIPTION, "d"),
            (urls::CLASSTYPE_PROP, PERSON),
        ],
    );
    assert_eq!(store.get_property("p1"), Err(AtomicError::DatatypeNotFound("p1".into())));
    assert_eq!(store.get_property("p2"), Err(AtomicError::ShortnameNotFound("p2".into())));
    assert_eq!(store.get_property("p3"), Err(AtomicError::DescriptionNotFound("p3".into())));
    assert_eq!(store.get_property("nope"), Err(AtomicError::NotFound("nope".into())));
    let p4 = store.get_property("p4").unwrap();
    assert_eq!(p4.data_type, DataType::Unsupported("https://example.com/odd".into()));
    assert_eq!(p4.class_type, Some(PERSON.to_string()));
}

#[test]
fn shortnames_and_urls() {
    let store = people();
    let alice = store.get_resource_string(ALICE).unwrap();
    assert_eq!(store.property_shortname_to_url("age", &alice).unwrap(), AGE);
    assert_eq!(store.property_url_to_shortname(AGE).unwrap(), "age");
    assert_eq!(
        store.property_shortname_to_url("height", &alice),
        Err(AtomicError::ShortnameUnknown("height".into()))
    );
    let mut odd = Store::init();
    add(&mut odd, "p", &[(urls::DESCRIPTION, "no shortname")]);
    let r = resource(&[("p", "v")]);
    assert_eq!(odd.property_shortname_to_url("x", &r), Err(AtomicError::ShortnameNotFound("p".into())));
    assert_eq!(odd.property_url_to_shortname("p"), Err(AtomicError::ShortnameNotFound("p".into())));
}

#[test]
fn ad3_of_a_resource_reads_back() {
    let mut store = Store::init();
    add(&mut store, "https://example.com/s", &[("https://example.com/p", "a \"quoted\"\nline")]);
    let text = store.resource_to_ad3("https://example.com/s").unwrap();
    assert_eq!(
        text,
        "[\"https://example.com/s\",\"https://example.com/p\",\"a \\\"quoted\\\"\\nline\"]\n"
    );
    let atoms = atomic_lib::parse_ad3(&text).unwrap();
    assert_eq!(
        atoms,
        vec![Atom::new("https://example.com/s".into(), "https://example.com/p".into(), "a \"quoted\"\nline".into())]
    );
}

#[test]
fn parse_ad3_skips_comments_and_rejects_bad_lines() {
    let text = "# comment\r\n [ignored\n\n[\"s\",\"p\",\"v\"]\r\n[\"s\",\"q\",\"w\"]";
    let atoms = atomic_lib::parse_ad3(text).unwrap();
    assert_eq!(atoms.len(), 2);
    assert_eq!(atoms[1], Atom::new("s".into(), "q".into(), "w".into()));
    assert_eq!(
        atomic_lib::parse_ad3("x"),
        Err(AtomicError::Ad3UnexpectedLine("x".into()))
    );
    assert_eq!(
        atomic_lib::parse_ad3("[\"s\",\"p\"]"),
        Err(AtomicError::Ad3WrongLength("[\"s\",\"p\"]".into()))
    );
    assert_eq!(atomic_lib::parse_ad3("[1,2"), Err(AtomicError::NotAJsonArray("[1,2".into())));
}

#[test]
fn fetched_atoms_keep_the_subject() {
    let atoms = vec![
        Atom::new("s".into(), "p".into(), "1".into()),
        Atom::new("other".into(), "p".into(), "2".into()),
        Atom::new("s".into(), "p".into(), "3".into()),
    ];
    assert_eq!(atomic_lib::resource_from_atoms("s", atoms).unwrap(), resource(&[("p", "3")]));
    let none = vec![Atom::new("other".into(), "p".into(), "2".into())];
    assert_eq!(atomic_lib::resource_from_atoms("s", none), Err(AtomicError::NoValidAtoms("s".into())));
}

#[test]
fn tpf_queries() {
    let store = people();
    let all = store.tpf(None, None, None).unwrap();
    let total: usize = store.all_resources().iter().map(|(_, r)| r.len()).sum();
    assert_eq!(all.len(), total);
    let ages = store.tpf(None, Some(AGE), None).unwrap();
    assert_eq!(ages.len(), 2);
    assert!(ages.iter().all(|a| a.property == AGE));
    let persons = store.tpf(None, Some(urls::IS_A), Some(PERSON)).unwrap();
    assert_eq!(persons, vec![Atom::new(ALICE.into(), urls::IS_A.into(), "[\"https://example.com/classes/Person\"]".into())]);
    let thirty = store.tpf(None, None, Some("30")).unwrap();
    assert_eq!(thirty, vec![Atom::new(ALICE.into(), AGE.into(), "30".into())]);
    let bob = store.tpf(Some(BOB), None, None).unwrap();
    assert_eq!(bob.len(), 2);
    let bob_age = store.tpf(Some(BOB), Some(AGE), None).unwrap();
    assert_eq!(bob_age, vec![Atom::new(BOB.into(), AGE.into(), "25".into())]);
    assert!(store.tpf(Some("https://example.com/nobody"), Some(AGE), None).unwrap().is_empty());
    // Property and value must both match.
    assert!(store.tpf(Some(ALICE), Some(AGE), Some("Alice")).unwrap().is_empty());
    assert_eq!(
        store.tpf(Some(ALICE), Some(AGE), Some("30")).unwrap(),
        vec![Atom::new(ALICE.into(), AGE.into(), "30".into())]
    );
}

#[test]
fn tpf_property_and_value_combination() {
    let mut store = Store::init();
    add(&mut store, "https://ex/s", &[("https://ex/p", "v"), ("https://ex/q", "v")]);
    assert_eq!(
        store.tpf(None, Some("https://ex/p"), Some("v")).unwrap(),
        vec![Atom::new("https://ex/s".into(), "https://ex/p".into(), "v".into())]
    );
    assert_eq!(store.tpf(None, None, Some("v")).unwrap().len(), 2);
}

#[test]
fn classes() {
    let store = people();
    let class = store.get_class(PERSON).unwrap();
    assert_eq!(class.shortname, "person");
    assert_eq!(class.description, "A human");
    assert_eq!(class.required.len(), 1);
    assert_eq!(class.required[0].shortname, "age");
    assert!(class.recommended.is_empty());
    let classes = store.get_classes_for_subject(ALICE).unwrap();
    assert_eq!(classes, vec![class]);
    assert!(store.get_classes_for_subject(BOB).unwrap().is_empty());
    assert!(store.read_class(BOB).is_none());
    assert_eq!(store.try_get_classes_for_subject(ALICE).unwrap().unwrap().len(), 1);
}

#[test]
fn classes_that_cannot_be_read() {
    let mut store = people();
    add(&mut store, "https://example.com/carol", &[(urls::IS_A, "[\"https://example.com/bob\"]")]);
    add(&mut store, "https://example.com/dan", &[(urls::IS_A, "not an array")]);
    assert!(store.try_get_classes_for_subject("https://example.com/carol").is_none());
    assert_eq!(
        store.get_classes_for_subject("https://example.com/dan"),
        Err(AtomicError::InvalidValue("not an array".into(), urls::RESOURCE_ARRAY.into()))
    );
}

#[test]
fn paths() {
    let store = people();
    assert_eq!(store.get_path(ALICE, None).unwrap(), PathReturn::Subject(ALICE.into()));
    match store.get_path(&format!("{} age", ALICE), None).unwrap() {
        PathReturn::Atom(a) => {
            assert_eq!(a.subject, ALICE);
            assert_eq!(a.value, "30");
            assert_eq!(a.native_value, NativeValue::Integer(30));
            assert_eq!(a.property.subject, AGE);
        },
        other => panic!("unexpected {:?}", other),
    }
    assert_eq!(
        store.get_path(&format!("{} friends 0", ALICE), None).unwrap(),
        PathReturn::Subject(BOB.into())
    );
    match store.get_path(&format!("{}  friends  0 {}", ALICE, AGE), None).unwrap() {
        PathReturn::Atom(a) => assert_eq!((a.subject.as_str(), a.value.as_str()), (BOB, "25")),
        other => panic!("unexpected {:?}", other),
    }
    assert_eq!(store.get_path(&format!("{} 0", ALICE), None), Err(AtomicError::IndexOnResource));
    assert_eq!(
        store.get_path(&format!("{} age description", ALICE), None),
        Err(AtomicError::NoMoreLinkedResources)
    );
    let mut mapping = Mapping::init();
    mapping.insert("alice".into(), ALICE.into());
    assert_eq!(store.get_path("alice", Some(&mapping)).unwrap(), PathReturn::Subject(ALICE.into()));
    assert_eq!(store.get_path("carol", Some(&mapping)), Err(AtomicError::NoMapping("carol".into())));
    assert!(store.try_get_path(&format!("{} friends 5", ALICE), None).is_none());
}

#[test]
fn json_of_a_resource() {
    let store = people();
    let json = store.resource_to_json(BOB, 1, false).unwrap();
    assert_eq!(json, "{\n  \"age\": 25,\n  \"description\": \"Bob\"\n}");
    let ld = store.resource_to_json(BOB, 1, true).unwrap();
    let expected = format!(
        "{{\n  \"@context\": {{\n    \"age\": {{\n      \"@id\": \"{}\",\n      \"@type\": \"http://www.w3.org/2001/XMLSchema#integer\"\n    }},\n    \"description\": \"{}\"\n  }},\n  \"@id\": \"{}\",\n  \"age\": 25,\n  \"description\": \"Bob\"\n}}",
        AGE,
        urls::DESCRIPTION,
        BOB
    );
    assert_eq!(ld, expected);
    let alice = store.resource_to_json(ALICE, 1, false).unwrap();
    assert!(alice.contains("\"friends\": [\n    \"https://example.com/bob\"\n  ]"));
}

#[test]
fn json_refuses_values_that_do_not_fit() {
    let mut store = people();
    add(&mut store, "https://example.com/eve", &[(AGE, "old")]);
    assert!(store.try_resource_to_json("https://example.com/eve", 1, false).is_none());
    assert_eq!(
        store.try_resource_to_json("https://example.com/nobody", 1, false),
        Some(Err(AtomicError::NotFound("https://example.com/nobody".into())))
    );
}

#[test]
fn deltas() {
    let mut store = people();
    let delta = Delta {
        subject: BOB.into(),
        lines: vec![
            DeltaLine { method: "insert".into(), property: AGE.into(), value: "26".into() },
            DeltaLine { method: "other".into(), property: AGE.into(), value: "99".into() },
            DeltaLine { method: urls::INSERT.into(), property: urls::DESCRIPTION.into(), value: "Robert".into() },
        ],
    };
    store.process_delta(delta).unwrap();
    assert_eq!(
        store.get_resource_string(BOB).unwrap(),
        resource(&[(urls::DESCRIPTION, "Robert"), (AGE, "26")])
    );
    let bad = Delta {
        subject: BOB.into(),
        lines: vec![DeltaLine { method: "insert".into(), property: AGE.into(), value: "x".into() }],
    };
    assert_eq!(
        store.process_delta(bad),
        Err(AtomicError::InvalidValue("x".into(), urls::INTEGER.into()))
    );
    let deleting = Delta {
        subject: BOB.into(),
        lines: vec![DeltaLine { method: "delete".into(), property: AGE.into(), value: "26".into() }],
    };
    assert!(store.try_process_delta(deleting).is_none());
}

#[test]
fn collections() {
    let store = people();
    let query = || TPFQuery { subject: None, property: Some(AGE.into()), value: None };
    let c = store.get_collection(query(), AGE.into(), false, 0, 10).unwrap();
    assert_eq!(c.total_items, 2);
    assert_eq!(c.total_pages, 1);
    assert_eq!(c.page_size, 10);
    assert_eq!(c.pages[0].members, vec![BOB.to_string(), ALICE.to_string()]);
    assert_eq!(c.sort_by, AGE);
    let d = store.get_collection(query(), AGE.into(), true, 1, 1).unwrap();
    assert_eq!(d.current_page, 1);
    assert_eq!(d.total_pages, 2);
    assert_eq!(d.pages[0].members, vec![ALICE.to_string()]);
    assert_eq!(d.pages[1].members, vec![BOB.to_string()]);
    let all = store.get_collection(query(), AGE.into(), false, 0, 0).unwrap();
    assert_eq!(all.pages.len(), 1);
    assert_eq!(all.pages[0].members.len(), 2);
    let none = TPFQuery { subject: None, property: Some("https://example.com/none".into()), value: None };
    assert!(store.get_collection(none, AGE.into(), false, 0, 5).unwrap().pages.is_empty());
}

#[test]
fn values_by_datatype() {
    assert_eq!(NativeValue::new("-12", &DataType::Integer), Ok(NativeValue::Integer(-12)));
    assert_eq!(NativeValue::new("+7", &DataType::Timestamp), Ok(NativeValue::Timestamp(7)));
    assert_eq!(
        NativeValue::new("9223372036854775808", &DataType::Integer),
        Err(AtomicError::InvalidValue("9223372036854775808".into(), urls::INTEGER.into()))
    );
    assert_eq!(
        NativeValue::new("-9223372036854775808", &DataType::Integer),
        Ok(NativeValue::Integer(i64::MIN))
    );
    assert_eq!(
        NativeValue::new("[\"a\",\"b\"]", &DataType::ResourceArray),
        Ok(NativeValue::ResourceArray(vec!["a".into(), "b".into()]))
    );
    assert_eq!(NativeValue::new("x", &DataType::Slug), Ok(NativeValue::Slug("x".into())));
    assert_eq!(atomic_lib::match_datatype(urls::DATE), DataType::Date);
    assert_eq!(atomic_lib::match_datatype("x"), DataType::Unsupported("x".into()));
}

#[test]
fn text_helpers() {
    assert_eq!(atomic_lib::numbers::parse_u32("+42"), Some(42));
    assert_eq!(atomic_lib::numbers::parse_u32("-0"), None);
    assert_eq!(atomic_lib::numbers::parse_u32("4294967296"), None);
    assert_eq!(atomic_lib::numbers::parse_u32(""), None);
    assert_eq!(atomic_lib::numbers::parse_i64("-"), None);
    assert_eq!(atomic_lib::text::split_char("a  b", ' '), vec!["a", "", "b"]);
    assert_eq!(atomic_lib::text::split_char("", ' '), vec![""]);
    assert!(atomic_lib::is_url("https://x"));
    assert!(!atomic_lib::is_url("htt"));
}

#[test]
fn mapping_prefers_the_mapped_url() {
    let mut m = Mapping::init();
    m.insert("http-thing".into(), "https://example.com/thing".into());
    assert_eq!(m.try_mapping_or_url("http-thing"), Some("https://example.com/thing".into()));
    assert_eq!(m.try_mapping_or_url("https://x"), Some("https://x".into()));
    assert_eq!(m.try_mapping_or_url("nothing"), None);
}
