//! Cursor behaviour: directional movement, in-place mutation, and the
//! sorted-append invariant.

use heed::cursor::{RoCursor, RwCursor};
use heed::env::{Env, EnvOpenOptions};
use heed::types::Str;
use heed::{Error, MdbError};

fn env_with_three() -> (Env, usize) {
    let mut env = EnvOpenOptions::new().max_dbs(4).open().unwrap();
    let db = env.create_database::<Str, Str>(&b"t".to_vec()).unwrap();
    let mut wtxn = env.write_txn().unwrap();
    for (k, v) in [("abcd", "two"), ("aaaa", "one"), ("bcde", "three")] {
        db.put(&mut wtxn, &String::from(k), &String::from(v)).unwrap();
    }
    let dbi = db.dbi();
    wtxn.commit(&mut env).unwrap();
    (env, dbi)
}

fn text(kv: (&Vec<u8>, &Vec<u8>)) -> (String, String) {
    (
        String::from_utf8(kv.0.clone()).unwrap(),
        String::from_utf8(kv.1.clone()).unwrap(),
    )
}

#[test]
fn moves_visit_entries_in_key_order() {
    let (mut env, dbi) = env_with_three();
    let rtxn = env.read_txn().unwrap();
    let mut cursor = RoCursor::new(&rtxn, dbi).unwrap();

    let kv = cursor.move_on_first(&rtxn).unwrap().unwrap();
    assert_eq!(text(kv), (String::from("aaaa"), String::from("one")));
    let kv = cursor.move_on_next(&rtxn).unwrap().unwrap();
    assert_eq!(text(kv), (String::from("abcd"), String::from("two")));
    let kv = cursor.current(&rtxn).unwrap().unwrap();
    assert_eq!(text(kv), (String::from("abcd"), String::from("two")));
    let kv = cursor.move_on_next(&rtxn).unwrap().unwrap();
    assert_eq!(text(kv), (String::from("bcde"), String::from("three")));
    assert!(cursor.move_on_next(&rtxn).unwrap().is_none());

    let kv = cursor.move_on_last(&rtxn).unwrap().unwrap();
    assert_eq!(text(kv), (String::from("bcde"), String::from("three")));
    let kv = cursor.move_on_prev(&rtxn).unwrap().unwrap();
    assert_eq!(text(kv), (String::from("abcd"), String::from("two")));

    let kv = cursor
        .move_on_key_greater_than_or_equal_to(&rtxn, b"ab")
        .unwrap()
        .unwrap();
    assert_eq!(text(kv), (String::from("abcd"), String::from("two")));
    let kv = cursor
        .move_on_key_greater_than_or_equal_to(&rtxn, b"abcd")
        .unwrap()
        .unwrap();
    assert_eq!(text(kv), (String::from("abcd"), String::from("two")));
    assert!(cursor
        .move_on_key_greater_than_or_equal_to(&rtxn, b"zzz")
        .unwrap()
        .is_none());
    rtxn.abort(&mut env);
}

#[test]
fn empty_table_has_no_first_or_last() {
    let mut env = EnvOpenOptions::new().max_dbs(4).open().unwrap();
    let db = env.create_database::<Str, Str>(&b"t".to_vec()).unwrap();
    let rtxn = env.read_txn().unwrap();
    let mut cursor = RoCursor::new(&rtxn, db.dbi()).unwrap();
    assert!(cursor.move_on_first(&rtxn).unwrap().is_none());
    assert!(cursor.move_on_last(&rtxn).unwrap().is_none());
    assert!(cursor.current(&rtxn).unwrap().is_none());
    rtxn.abort(&mut env);
}

#[test]
fn put_current_replaces_the_value_in_place() {
    let (mut env, dbi) = env_with_three();
    let mut wtxn = env.write_txn().unwrap();
    let mut cursor = RwCursor::new(&wtxn, dbi).unwrap();

    let kv = cursor.move_on_first(&mut wtxn).unwrap().unwrap();
    let key = kv.0.clone();
    assert_eq!(key, b"aaaa".to_vec());
    assert!(cursor.put_current(&mut wtxn, &key, b"ONE").unwrap());
    let kv = cursor.current(&wtxn).unwrap().unwrap();
    assert_eq!(text(kv), (String::from("aaaa"), String::from("ONE")));

    // An unpositioned cursor has nothing to replace.
    let mut fresh = RwCursor::new(&wtxn, dbi).unwrap();
    assert!(!fresh.put_current(&mut wtxn, b"aaaa", b"nope").unwrap());
    wtxn.commit(&mut env).unwrap();
}

#[test]
fn del_current_removes_and_iteration_continues() {
    let (mut env, dbi) = env_with_three();
    let mut wtxn = env.write_txn().unwrap();
    let mut cursor = RwCursor::new(&wtxn, dbi).unwrap();

    // An unpositioned cursor has nothing to delete.
    assert!(!cursor.del_current(&mut wtxn).unwrap());

    cursor.move_on_first(&mut wtxn).unwrap().unwrap();
    cursor.move_on_next(&mut wtxn).unwrap().unwrap();
    assert!(cursor.del_current(&mut wtxn).unwrap());
    // Deleting again at the same position finds nothing.
    assert!(!cursor.del_current(&mut wtxn).unwrap());
    // The next move continues past the removed key.
    let kv = cursor.move_on_next(&mut wtxn).unwrap().unwrap();
    assert_eq!(text(kv), (String::from("bcde"), String::from("three")));
    wtxn.commit(&mut env).unwrap();

    let rtxn = env.read_txn().unwrap();
    let mut check = RoCursor::new(&rtxn, dbi).unwrap();
    let kv = check.move_on_first(&rtxn).unwrap().unwrap();
    assert_eq!(text(kv).0, "aaaa");
    let kv = check.move_on_next(&rtxn).unwrap().unwrap();
    assert_eq!(text(kv).0, "bcde");
    rtxn.abort(&mut env);
}

#[test]
fn append_loads_sorted_entries() {
    // Entries already in another table do not disturb a sorted append.
    let mut env = EnvOpenOptions::new().max_dbs(4).open().unwrap();
    let first = env.create_database::<Str, Str>(&b"first".to_vec()).unwrap();
    let second = env.create_database::<Str, Str>(&b"second".to_vec()).unwrap();

    let mut wtxn = env.write_txn().unwrap();
    first.put(&mut wtxn, &String::from("I am here"), &String::from("to test things")).unwrap();
    first.put(&mut wtxn, &String::from("I am here too"), &String::from("for the same purpose")).unwrap();

    let mut cursor = RwCursor::new(&wtxn, second.dbi()).unwrap();
    cursor.append(&mut wtxn, b"aaaa", b"lol").unwrap();
    cursor.append(&mut wtxn, b"abcd", b"lol").unwrap();
    cursor.append(&mut wtxn, b"bcde", b"lol").unwrap();
    wtxn.commit(&mut env).unwrap();

    let rtxn = env.read_txn().unwrap();
    assert_eq!(second.get(&rtxn, &String::from("abcd")).unwrap(), Some(String::from("lol")));
    rtxn.abort(&mut env);
}

#[test]
fn append_out_of_order_is_an_ordering_violation() {
    let (mut env, dbi) = env_with_three();
    let mut wtxn = env.write_txn().unwrap();
    let mut cursor = RwCursor::new(&wtxn, dbi).unwrap();

    // "bcde" is the greatest stored key: anything not above it is refused.
    let r = cursor.append(&mut wtxn, b"bcde", b"dup");
    assert_eq!(r, Err(Error::Mdb(MdbError::KeyExist)));
    let r = cursor.append(&mut wtxn, b"aaab", b"early");
    assert_eq!(r, Err(Error::Mdb(MdbError::KeyExist)));
    // The table is unchanged and a greater key still appends.
    cursor.append(&mut wtxn, b"zzzz", b"late").unwrap();
    wtxn.commit(&mut env).unwrap();
}
