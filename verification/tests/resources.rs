use atomic_lib::numbers::i64_text;
use atomic_lib::resources::value_text;
use atomic_lib::urls;
use atomic_lib::{Atom, AtomicError, NativeValue, PathReturn, Resource, ResourceString, Store, Storelike};

const AGE: &str = "https://example.com/props/age";
const FRIENDS: &str = "https://example.com/props/friends";
const ALICE: &str = "https://example.com/alice";
const BOB: &str = "https://example.com/bob";

fn put(store: &mut Store, subject: &str, pairs: &[(&str, &str)]) {
    let mut r = ResourceString::new();
    for (p, v) in pairs {
        r.insert(p.to_string(), v.to_string());
    }
    store.add_resource_string(subject.to_string(), &r).unwrap();
}

fn with_properties() -> Store {
    let mut store = Store::init();
    for (url, shortname, datatype) in [
        (urls::DESCRIPTION, "description", urls::MARKDOWN),
        (AGE, "age", urls::INTEGER),
        (FRIENDS, "friends", urls::RESOURCE_ARRAY),
    ] {
        put(
            &mut store,
            url,
            &[(urls::SHORTNAME, shortname), (urls::DESCRIPTION, "a property"), (urls::DATATYPE_PROP, datatype)],
        );
    }
    store
}

#[test]
fn populate_adds_the_atoms_of_ad3_text() {
    let mut store = Store::init();
    let text = "[\"https://ex/s\",\"https://ex/p\",\"v\"]\n# a comment\n[\"https://ex/s\",\"https://ex/q\",\"v\"]\n";
    store.populate(text).unwrap();
    let s = store.get_resource_string("https://ex/s").unwrap();
    assert_eq!(s.get("https://ex/p"), Some(&"v".to_string()));
    assert_eq!(s.get("https://ex/q"), Some(&"v".to_string()));
    assert_eq!(
        store.tpf(None, Some("https://ex/p"), Some("v")).unwrap(),
        vec![Atom::new("https://ex/s".into(), "https://ex/p".into(), "v".into())]
    );
}

#[test]
fn populate_refuses_text_that_is_not_ad3() {
    let mut store = Store::init();
    put(&mut store, "https://ex/s", &[("https://ex/p", "v")]);
    let before = store.all_resources();
    assert_eq!(
        store.populate("[\"s\",\"p\"]\n"),
        Err(AtomicError::Ad3WrongLength("[\"s\",\"p\"]".into()))
    );
    assert_eq!(store.all_resources(), before);
}

#[test]
fn get_resource_reads_values_by_datatype() {
    let mut store = with_properties();
    put(&mut store, ALICE, &[(urls::DESCRIPTION, "Alice"), (AGE, "30"), (FRIENDS, "[\"https://example.com/bob\"]")]);
    let alice = store.get_resource(ALICE).unwrap();
    assert_eq!(alice.get_subject(), ALICE);
    assert_eq!(
        alice.propvals,
        vec![
            (urls::DESCRIPTION.to_string(), NativeValue::Markdown("Alice".into())),
            (AGE.to_string(), NativeValue::Integer(30)),
            (FRIENDS.to_string(), NativeValue::ResourceArray(vec![BOB.into()])),
        ]
    );
    assert_eq!(
        store.get_resource("https://example.com/nobody"),
        Err(AtomicError::NotFound("https://example.com/nobody".into()))
    );
}

#[test]
fn get_resource_stops_at_values_that_do_not_fit() {
    let mut store = with_properties();
    put(&mut store, BOB, &[(AGE, "old")]);
    assert!(store.try_get_resource(BOB).is_none());
    put(&mut store, ALICE, &[("https://example.com/props/unknown", "x")]);
    assert!(matches!(store.try_get_resource(ALICE), Some(Err(_))));
}

#[test]
fn add_resource_then_get_resource_gives_it_back() {
    let mut store = with_properties();
    let mut bob = Resource::new(BOB.into());
    bob.propvals.push((AGE.into(), NativeValue::Integer(-25)));
    bob.propvals.push((FRIENDS.into(), NativeValue::ResourceArray(vec![ALICE.into(), "https://example.com/carol".into()])));
    bob.propvals.push((urls::DESCRIPTION.into(), NativeValue::Markdown("Bob".into())));
    store.add_resource(&bob).unwrap();
    let plain = store.get_resource_string(BOB).unwrap();
    assert_eq!(plain.get(AGE), Some(&"-25".to_string()));
    assert_eq!(
        plain.get(FRIENDS),
        Some(&"[\"https://example.com/alice\",\"https://example.com/carol\"]".to_string())
    );
    assert_eq!(store.get_resource(BOB).unwrap(), bob);
    put(&mut store, "https://example.com/carol", &[(AGE, "3")]);
    assert_eq!(
        store.get_path(&format!("{} friends 1", BOB), None).unwrap(),
        PathReturn::Subject("https://example.com/carol".into())
    );
}

#[test]
fn to_plain_keeps_the_last_value_of_a_property() {
    let mut r = Resource::new(ALICE.into());
    r.propvals.push((AGE.into(), NativeValue::Integer(1)));
    r.propvals.push((AGE.into(), NativeValue::Timestamp(2)));
    let plain = r.to_plain();
    assert_eq!(plain.len(), 1);
    assert_eq!(plain.get(AGE), Some(&"2".to_string()));
}

#[test]
fn values_written_as_text() {
    assert_eq!(i64_text(0), "0");
    assert_eq!(i64_text(1234567890), "1234567890");
    assert_eq!(i64_text(-7), "-7");
    assert_eq!(i64_text(i64::MIN), "-9223372036854775808");
    assert_eq!(i64_text(i64::MAX), "9223372036854775807");
    assert_eq!(value_text(&NativeValue::Slug("a-b".into())), "a-b");
    assert_eq!(value_text(&NativeValue::ResourceArray(vec![])), "[]");
    assert_eq!(value_text(&NativeValue::ResourceArray(vec!["x\"y".into()])), "[\"x\\\"y\"]");
}

#[test]
fn adding_an_atom_twice_is_adding_it_once() {
    let atom = || Atom::new("https://ex/s".into(), "https://ex/p".into(), "v".into());
    let mut once = Store::init();
    put(&mut once, "https://ex/s", &[("https://ex/q", "w")]);
    let mut twice = Store::init();
    put(&mut twice, "https://ex/s", &[("https://ex/q", "w")]);
    once.add_atom(atom()).unwrap();
    twice.add_atom(atom()).unwrap();
    twice.add_atom(atom()).unwrap();
    assert_eq!(once.all_resources(), twice.all_resources());
}

#[test]
fn url_to_shortname_and_back() {
    let store = with_properties();
    let mut alice = ResourceString::new();
    alice.insert(urls::DESCRIPTION.into(), "Alice".into());
    alice.insert(AGE.into(), "30".into());
    let shortname = store.property_url_to_shortname(AGE).unwrap();
    assert_eq!(store.property_shortname_to_url(&shortname, &alice).unwrap(), AGE);
}

#[test]
fn a_doubled_space_in_a_path_is_one_space() {
    let mut store = with_properties();
    put(&mut store, ALICE, &[(AGE, "30"), (FRIENDS, "[\"https://example.com/bob\"]")]);
    put(&mut store, BOB, &[(AGE, "25")]);
    let one = store.get_path(&format!("{} friends 0 age", ALICE), None).unwrap();
    let two = store.get_path(&format!("{}  friends  0  age", ALICE), None).unwrap();
    assert_eq!(one, two);
}

#[test]
fn json_does_not_depend_on_the_depth() {
    let mut store = with_properties();
    put(&mut store, ALICE, &[(AGE, "30")]);
    assert_eq!(store.resource_to_json(ALICE, 0, true), store.resource_to_json(ALICE, 5, true));
}

#[test]
fn populating_twice_is_populating_once() {
    let text = "[\"https://ex/s\",\"https://ex/p\",\"1\"]\n[\"https://ex/s\",\"https://ex/p\",\"2\"]\n[\"https://ex/t\",\"https://ex/p\",\"3\"]\n";
    let mut store = Store::init();
    store.populate(text).unwrap();
    let once = store.all_resources();
    store.populate(text).unwrap();
    assert_eq!(store.all_resources(), once);
    assert_eq!(store.get_resource_string("https://ex/s").unwrap().get("https://ex/p"), Some(&"2".to_string()));
}

#[test]
fn array_text_escapes_control_characters() {
    assert_eq!(
        value_text(&NativeValue::ResourceArray(vec!["a\tb".into(), "\u{1}".into(), "\\".into(), "é".into()])),
        "[\"a\\tb\",\"\\u0001\",\"\\\\\",\"é\"]"
    );
    assert_eq!(value_text(&NativeValue::ResourceArray(vec!["\u{1f}".into()])), "[\"\\u001f\"]");
}
