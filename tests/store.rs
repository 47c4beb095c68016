use jsondb::{Collection, Db, Entry, Error, Id, Item, PendingWrite};
use serde_json::Value;

fn json(text: &str) -> Value {
    serde_json::from_str(text).unwrap()
}

fn users() -> Collection {
    Db::open("/data").collection("users")
}

fn names(listing: &Vec<Entry>) -> Vec<String> {
    listing.iter().map(|e| e.name.clone()).collect()
}

/// Insert `data` into the in-memory directory `listing`, as the program
/// around the library does on disk.
fn insert(c: &Collection, listing: &mut Vec<Entry>, data: &Value) -> Id {
    let w = c.insert_one(&names(listing), data).unwrap();
    let id = w.id.clone();
    apply(listing, w);
    id
}

fn apply(listing: &mut Vec<Entry>, w: PendingWrite) {
    let name = w.id.to_str().unwrap().to_string();
    match listing.iter_mut().find(|e| e.name == name) {
        Some(e) => e.content = w.content,
        None => listing.push(Entry { name, content: w.content }),
    }
}

fn content_of(listing: &Vec<Entry>, id: &Id) -> Vec<u8> {
    let name = id.to_str().unwrap();
    listing.iter().find(|e| e.name == name).unwrap().content.clone()
}

fn is_hex_id(s: &str) -> bool {
    s.len() == 16 && s.chars().all(|c| c.is_ascii_digit() || ('a'..='f').contains(&c))
}

#[test]
fn test_insert_and_get() {
    let conn = Db::open("/tmp/db").collection("abc");
    let mut listing = Vec::new();
    let id = insert(&conn, &mut listing, &Value::from(123));
    let val: Item<Value> = conn.get_one(&id, &content_of(&listing, &id)).unwrap();
    assert_eq!(val.data, Value::from(123));
}

#[test]
fn test_update_by_id() {
    let conn = Db::open("/tmp/db").collection("abc");
    let mut listing = Vec::new();
    let id = insert(&conn, &mut listing, &Value::from(123));
    let w = conn
        .update_by_id(&id, &content_of(&listing, &id), |mut item: Item<Value>| {
            item.data = Value::from(456);
            item
        })
        .unwrap();
    apply(&mut listing, w);
    let val: Item<Value> = conn.get_one(&id, &content_of(&listing, &id)).unwrap();
    assert_eq!(val.data, Value::from(456));
}

#[test]
fn round_trip_through_a_file() {
    let c = users();
    let payload = json(r#"{"name":"a","tags":[1,2,{"x":null}],"ok":true}"#);
    let w = c.insert_one(&Vec::new(), &payload).unwrap();
    assert!(!w.content.is_empty());
    let item = c.get_one(&w.id, &w.content).unwrap();
    assert_eq!(item.data, payload);
    assert!(item.id == w.id);
}

#[test]
fn inserted_ids_are_hex_and_named_files() {
    let c = users();
    let w = c.insert_one(&Vec::new(), &json("{}")).unwrap();
    let text = w.id.to_str().unwrap();
    assert!(is_hex_id(text));
    assert_eq!(w.path, format!("/data/users/{}", text));
}

#[test]
fn random_ids_have_the_shape() {
    for _ in 0..200 {
        let id = Id::random();
        assert!(is_hex_id(id.to_str().unwrap()));
    }
}

#[test]
fn sequential_inserts_are_distinct() {
    let c = users();
    let mut listing = Vec::new();
    let mut seen = std::collections::HashSet::new();
    for k in 0..2000 {
        let id = insert(&c, &mut listing, &Value::from(k));
        assert!(seen.insert(id.to_str().unwrap().to_string()));
    }
    assert_eq!(listing.len(), 2000);
}

#[test]
fn gen_id_avoids_taken_names() {
    let c = users();
    let taken: Vec<String> = (0..100).map(|_| Id::random().to_str().unwrap().to_string()).collect();
    let id = c.gen_id(&taken).unwrap();
    assert!(!taken.iter().any(|t| t == id.to_str().unwrap()));
}

#[test]
fn parse_checks_length_and_alphabet() {
    let id = "0123456789abcdef".parse::<Id>().unwrap();
    assert_eq!(id.to_str().unwrap(), "0123456789abcdef");
    assert!(matches!("0123456789abcde".parse::<Id>(), Err(Error::InvalidId)));
    assert!(matches!("0123456789abcdef0".parse::<Id>(), Err(Error::InvalidId)));
    assert!(matches!("0123456789abcdeg".parse::<Id>(), Err(Error::InvalidId)));
    assert!(matches!("0123456789ABCDEF".parse::<Id>(), Err(Error::InvalidId)));
    assert!(matches!(Id::parse(""), Err(Error::InvalidId)));
}

#[test]
fn ids_compare_by_text() {
    let a = Id::parse("00000000000000aa").unwrap();
    let b = Id::parse("00000000000000aa").unwrap();
    let c = Id::parse("00000000000000ab").unwrap();
    assert!(a == b);
    assert!(a != c);
    assert!(a.clone() == a);
}

#[test]
fn paths_join_directory_and_name() {
    let db = Db::open("/srv/store");
    let c = db.collection("users");
    let id = Id::parse("0123456789abcdef").unwrap();
    assert_eq!(c.item_path(&id).unwrap(), "/srv/store/users/0123456789abcdef");
    assert_eq!(c.delete_one(&id).unwrap(), "/srv/store/users/0123456789abcdef");
}

#[test]
fn update_by_id_writes_only_its_own_file() {
    let c = users();
    let mut listing = Vec::new();
    let id1 = insert(&c, &mut listing, &json(r#"{"n":1}"#));
    let id2 = insert(&c, &mut listing, &json(r#"{"n":2}"#));
    let before2 = content_of(&listing, &id2);
    let w = c
        .update_by_id(&id1, &content_of(&listing, &id1), |mut item: Item<Value>| {
            item.data = json(r#"{"n":10}"#);
            item.id = Id::parse("ffffffffffffffff").unwrap();
            item
        })
        .unwrap();
    assert!(w.id == id1);
    assert_eq!(w.path, c.item_path(&id1).unwrap());
    apply(&mut listing, w);
    assert_eq!(listing.len(), 2);
    assert_eq!(content_of(&listing, &id2), before2);
    let item = c.get_one(&id1, &content_of(&listing, &id1)).unwrap();
    assert_eq!(item.data, json(r#"{"n":10}"#));
}

#[test]
fn update_by_id_of_corrupt_file_fails() {
    let c = users();
    let id = Id::parse("0123456789abcdef").unwrap();
    let r = c.update_by_id(&id, &b"{not json".to_vec(), |item: Item<Value>| item);
    assert!(matches!(r, Err(Error::JsonError(_))));
}

#[test]
fn deleted_document_is_absent() {
    let c = users();
    let mut listing = Vec::new();
    let id1 = insert(&c, &mut listing, &json(r#"{"name":"a"}"#));
    let id2 = insert(&c, &mut listing, &json(r#"{"name":"b"}"#));
    let name1 = id1.to_str().unwrap().to_string();
    listing.retain(|e| e.name != name1);
    let all = c.get_all(&listing).unwrap();
    assert_eq!(all.len(), 1);
    assert!(all[0].id == id2);
    assert!(!all.iter().any(|it| it.id == id1));
}

#[test]
fn find_many_filters_get_all() {
    let c = users();
    let mut listing = Vec::new();
    for k in 0..10 {
        insert(&c, &mut listing, &json(&format!(r#"{{"k":{}}}"#, k)));
    }
    let all = c.get_all(&listing).unwrap();
    let even = c
        .find_many(&listing, |it: &Item<Value>| it.data["k"].as_i64().unwrap() % 2 == 0)
        .unwrap();
    let expected: Vec<&Item<Value>> =
        all.iter().filter(|it| it.data["k"].as_i64().unwrap() % 2 == 0).collect();
    assert_eq!(even.len(), 5);
    for (a, b) in even.iter().zip(expected.iter()) {
        assert!(a.id == b.id);
        assert_eq!(a.data, b.data);
    }
    assert_eq!(c.find_many(&listing, |_: &Item<Value>| false).unwrap().len(), 0);
}

#[test]
fn scenario_insert_delete_update() {
    let c = Db::open("/d").collection("users");
    let mut listing = Vec::new();
    let id1 = insert(&c, &mut listing, &json(r#"{"name":"a"}"#));
    let id2 = insert(&c, &mut listing, &json(r#"{"name":"b"}"#));
    let all = c.get_all(&listing).unwrap();
    assert_eq!(all.len(), 2);
    for it in &all {
        if it.id == id1 {
            assert_eq!(it.data, json(r#"{"name":"a"}"#));
        } else {
            assert!(it.id == id2);
            assert_eq!(it.data, json(r#"{"name":"b"}"#));
        }
    }
    let gone = c.delete_one(&id1).unwrap();
    assert_eq!(gone, c.item_path(&id1).unwrap());
    let name1 = id1.to_str().unwrap().to_string();
    listing.retain(|e| e.name != name1);
    let all = c.get_all(&listing).unwrap();
    assert_eq!(all.len(), 1);
    assert!(all[0].id == id2);
    assert_eq!(all[0].data, json(r#"{"name":"b"}"#));
    let w = c
        .update_by_id(&id2, &content_of(&listing, &id2), |mut it: Item<Value>| {
            it.data["name"] = Value::from("c");
            it
        })
        .unwrap();
    apply(&mut listing, w);
    let one = c.get_one(&id2, &content_of(&listing, &id2)).unwrap();
    assert_eq!(one.data, json(r#"{"name":"c"}"#));
}

#[test]
fn update_many_with_rejecting_predicate_writes_nothing() {
    let c = users();
    let mut listing = Vec::new();
    for k in 0..5 {
        insert(&c, &mut listing, &Value::from(k));
    }
    let writes = c
        .update_many(&listing, |_: &Item<Value>| false, |mut it: Item<Value>| {
            it.data = Value::from("changed");
            it
        })
        .unwrap();
    assert!(writes.is_empty());
}

#[test]
fn update_many_rewrites_selected_documents() {
    let c = users();
    let mut listing = Vec::new();
    for k in 0..6 {
        insert(&c, &mut listing, &Value::from(k));
    }
    let writes = c
        .update_many(
            &listing,
            |it: &Item<Value>| it.data.as_i64().unwrap() >= 3,
            |mut it: Item<Value>| {
                it.data = Value::from(it.data.as_i64().unwrap() * 100);
                it
            },
        )
        .unwrap();
    assert_eq!(writes.len(), 3);
    for w in writes {
        apply(&mut listing, w);
    }
    let mut values: Vec<i64> = c
        .get_all(&listing)
        .unwrap()
        .iter()
        .map(|it| it.data.as_i64().unwrap())
        .collect();
    values.sort();
    assert_eq!(values, vec![0, 1, 2, 300, 400, 500]);
}

#[test]
fn corrupt_file_is_skipped_by_reads_and_fails_updates() {
    let c = users();
    let mut listing = Vec::new();
    let good = insert(&c, &mut listing, &json(r#"{"name":"a"}"#));
    listing.push(Entry { name: "aaaaaaaaaaaaaaaa".to_string(), content: b"{\"name\":".to_vec() });
    let all = c.get_all(&listing).unwrap();
    assert_eq!(all.len(), 1);
    assert!(all[0].id == good);
    let r = c.update_many(&listing, |_: &Item<Value>| true, |it: Item<Value>| it);
    assert!(matches!(r, Err(Error::JsonError(_))));
    let r = c.update_many(&listing, |_: &Item<Value>| false, |it: Item<Value>| it);
    assert!(matches!(r, Err(Error::JsonError(_))));
}

#[test]
fn stray_file_name_fails_reads() {
    let c = users();
    let mut listing = Vec::new();
    insert(&c, &mut listing, &json("1"));
    listing.push(Entry { name: "notes.txt".to_string(), content: b"1".to_vec() });
    assert!(matches!(c.get_all(&listing), Err(Error::InvalidId)));
    assert!(matches!(c.find_many(&listing, |_: &Item<Value>| true), Err(Error::InvalidId)));
    let r = c.update_many(&listing, |_: &Item<Value>| true, |it: Item<Value>| it);
    assert!(matches!(r, Err(Error::InvalidId)));
}

#[test]
fn get_one_of_corrupt_file_fails() {
    let c = users();
    let id = Id::parse("0123456789abcdef").unwrap();
    assert!(matches!(c.get_one(&id, &b"".to_vec()), Err(Error::JsonError(_))));
}

#[test]
fn replace_one_encodes_the_new_payload() {
    let c = users();
    let id = Id::parse("0123456789abcdef").unwrap();
    let item = Item::new(id.clone(), json(r#"{"v":[1,2]}"#));
    let w = c.replace_one(&item).unwrap();
    assert!(w.id == id);
    assert_eq!(w.path, "/data/users/0123456789abcdef");
    let back: Value = serde_json::from_slice(&w.content).unwrap();
    assert_eq!(back, json(r#"{"v":[1,2]}"#));
}

#[test]
fn error_conversions() {
    let e: Error = std::io::Error::new(std::io::ErrorKind::NotFound, "gone").into();
    assert!(matches!(e, Error::IoError(_)));
    let j = serde_json::from_str::<Value>("{").unwrap_err();
    let e: Error = j.into();
    assert!(matches!(e, Error::JsonError(_)));
}

#[test]
fn paths_join_like_filesystem_paths() {
    assert_eq!(Db::open("").collection("users").path(), "users");
    assert_eq!(Db::open("/srv/").collection("users").path(), "/srv/users");
    assert_eq!(Db::open("/srv").collection("/abs").path(), "/abs");
    let id = Id::parse("00000000000000ff").unwrap();
    assert_eq!(Db::open("").collection("u").item_path(&id).unwrap(), "u/00000000000000ff");
}

#[test]
fn insert_among_stray_names_succeeds() {
    let c = users();
    let taken = vec!["notes.txt".to_string(), "lock".to_string()];
    let w = c.insert_one(&taken, &json(r#"{"x":1}"#)).unwrap();
    assert!(is_hex_id(w.id.to_str().unwrap()));
    assert!(c.gen_id(&taken).is_some());
}

#[test]
fn items_compare_and_clone() {
    let id = Id::parse("0123456789abcdef").unwrap();
    let a = Item::new(id.clone(), json("[1]"));
    let b = a.clone();
    assert_eq!(a, b);
    assert_ne!(a, Item::new(id, json("[2]")));
}

#[test]
fn from_symbols_spells_the_digits() {
    let d = [
        "f", "e", "d", "c", "b", "a", "9", "8", "7", "6", "5", "4", "3", "2", "1", "0",
    ];
    let id = Id::from_symbols(&d);
    assert_eq!(id.to_str().unwrap(), "fedcba9876543210");
}

#[test]
fn from_str_matches_parse() {
    let id: Id = "00112233445566aa".parse().unwrap();
    assert!(id == Id::parse("00112233445566aa").unwrap());
    assert!(matches!("short".parse::<Id>(), Err(Error::InvalidId)));
}
