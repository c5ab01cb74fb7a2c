//! Environment and transaction behaviour: snapshot isolation, write
//! exclusivity, the table registry, and the closing phase.

use heed::env::{Env, EnvOpenOptions};
use heed::fixed::BEU32;
use heed::types::{OwnedType, Str};
use heed::{Error, MdbError};

fn open_env() -> Env {
    EnvOpenOptions::new().max_dbs(10).open().unwrap()
}

#[test]
fn put_get_round_trip_through_commit() {
    let mut env = open_env();
    let db = env.create_database::<Str, OwnedType<BEU32>>(&b"numbers".to_vec()).unwrap();

    let mut wtxn = env.write_txn().unwrap();
    db.put(&mut wtxn, &String::from("seven"), &BEU32::new(7)).unwrap();
    db.put(&mut wtxn, &String::from("zero"), &BEU32::new(0)).unwrap();
    wtxn.commit(&mut env).unwrap();

    let rtxn = env.read_txn().unwrap();
    assert_eq!(db.get(&rtxn, &String::from("zero")).unwrap().map(|v| v.get()), Some(0));
    assert_eq!(db.get(&rtxn, &String::from("seven")).unwrap().map(|v| v.get()), Some(7));
    assert_eq!(db.get(&rtxn, &String::from("five")).unwrap().map(|v| v.get()), None);
    rtxn.abort(&mut env);
}

#[test]
fn read_txn_is_isolated_from_later_commit() {
    let mut env = open_env();
    let db = env.create_database::<Str, Str>(&b"t".to_vec()).unwrap();

    let mut wtxn = env.write_txn().unwrap();
    db.put(&mut wtxn, &String::from("k"), &String::from("v1")).unwrap();
    wtxn.commit(&mut env).unwrap();

    // Begin reading before the second write commits.
    let rtxn = env.read_txn().unwrap();

    let mut wtxn = env.write_txn().unwrap();
    db.put(&mut wtxn, &String::from("k"), &String::from("v2")).unwrap();
    db.put(&mut wtxn, &String::from("fresh"), &String::from("new")).unwrap();
    wtxn.commit(&mut env).unwrap();

    // The old snapshot still sees the state of its begin.
    assert_eq!(db.get(&rtxn, &String::from("k")).unwrap(), Some(String::from("v1")));
    assert_eq!(db.get(&rtxn, &String::from("fresh")).unwrap(), None);
    rtxn.abort(&mut env);

    // A snapshot begun after the commit sees the published writes.
    let rtxn = env.read_txn().unwrap();
    assert_eq!(db.get(&rtxn, &String::from("k")).unwrap(), Some(String::from("v2")));
    assert_eq!(db.get(&rtxn, &String::from("fresh")).unwrap(), Some(String::from("new")));
    rtxn.abort(&mut env);
}

#[test]
fn abort_discards_writes() {
    let mut env = open_env();
    let db = env.create_database::<Str, Str>(&b"t".to_vec()).unwrap();

    let mut wtxn = env.write_txn().unwrap();
    db.put(&mut wtxn, &String::from("k"), &String::from("v")).unwrap();
    assert_eq!(db.rw_get(&wtxn, &String::from("k")).unwrap(), Some(String::from("v")));
    wtxn.abort(&mut env);

    let rtxn = env.read_txn().unwrap();
    assert_eq!(db.get(&rtxn, &String::from("k")).unwrap(), None);
    rtxn.abort(&mut env);
}

#[test]
fn second_write_txn_is_refused_while_first_is_active() {
    let mut env = open_env();
    let _db = env.create_database::<Str, Str>(&b"t".to_vec()).unwrap();

    let wtxn = env.write_txn().unwrap();
    assert!(env.writer_is_active());
    match env.write_txn() {
        Err(Error::Mdb(MdbError::Busy)) => {},
        other => panic!("expected the busy condition, got {:?}", other.is_ok()),
    }
    wtxn.abort(&mut env);
    assert!(!env.writer_is_active());
    let wtxn = env.write_txn().unwrap();
    wtxn.commit(&mut env).unwrap();
}

#[test]
fn reopening_with_same_codecs_hands_same_table() {
    let mut env = open_env();
    let db1 = env.create_database::<Str, Str>(&b"t".to_vec()).unwrap();
    let db2 = env.create_database::<Str, Str>(&b"t".to_vec()).unwrap();
    assert_eq!(db1.dbi(), db2.dbi());
}

#[test]
fn reopening_with_other_codecs_is_a_typing_error() {
    let mut env = open_env();
    let _db = env.create_database::<Str, Str>(&b"t".to_vec()).unwrap();
    let r = env.create_database::<Str, OwnedType<BEU32>>(&b"t".to_vec());
    assert!(matches!(r, Err(Error::InvalidDatabaseTyping)));
    let r = env.create_database::<OwnedType<BEU32>, Str>(&b"t".to_vec());
    assert!(matches!(r, Err(Error::InvalidDatabaseTyping)));
}

#[test]
fn table_maximum_is_enforced() {
    let mut env = EnvOpenOptions::new().max_dbs(2).open().unwrap();
    env.create_database::<Str, Str>(&b"a".to_vec()).unwrap();
    env.create_database::<Str, Str>(&b"b".to_vec()).unwrap();
    let r = env.create_database::<Str, Str>(&b"c".to_vec());
    assert!(matches!(r, Err(Error::Mdb(MdbError::DbsFull))));
    // An existing name still opens.
    env.create_database::<Str, Str>(&b"a".to_vec()).unwrap();
}

#[test]
fn reader_maximum_is_enforced() {
    let mut env = EnvOpenOptions::new().max_dbs(2).max_readers(1).open().unwrap();
    env.create_database::<Str, Str>(&b"t".to_vec()).unwrap();
    let rtxn = env.read_txn().unwrap();
    let r = env.read_txn();
    assert!(matches!(r, Err(Error::Mdb(MdbError::ReadersFull))));
    rtxn.abort(&mut env);
    let rtxn = env.read_txn().unwrap();
    rtxn.abort(&mut env);
}

#[test]
fn closing_refuses_new_work_and_completes() {
    let mut env = open_env();
    env.create_database::<Str, Str>(&b"t".to_vec()).unwrap();
    let rtxn = env.read_txn().unwrap();

    env.close();
    assert!(env.is_closing());
    assert!(!env.close_done());
    assert!(matches!(env.read_txn(), Err(Error::DatabaseClosing)));
    assert!(matches!(env.write_txn(), Err(Error::DatabaseClosing)));
    assert!(matches!(
        env.create_database::<Str, Str>(&b"u".to_vec()),
        Err(Error::DatabaseClosing)
    ));

    // Once the last live transaction ends, the close completes.
    rtxn.abort(&mut env);
    assert!(env.close_done());
}

#[test]
fn delete_and_clear() {
    let mut env = open_env();
    let db = env.create_database::<Str, Str>(&b"t".to_vec()).unwrap();

    let mut wtxn = env.write_txn().unwrap();
    db.put(&mut wtxn, &String::from("a"), &String::from("1")).unwrap();
    db.put(&mut wtxn, &String::from("b"), &String::from("2")).unwrap();
    assert_eq!(db.delete(&mut wtxn, &String::from("a")).unwrap(), true);
    assert_eq!(db.delete(&mut wtxn, &String::from("a")).unwrap(), false);
    wtxn.commit(&mut env).unwrap();

    let rtxn = env.read_txn().unwrap();
    assert_eq!(db.get(&rtxn, &String::from("a")).unwrap(), None);
    assert_eq!(db.get(&rtxn, &String::from("b")).unwrap(), Some(String::from("2")));
    rtxn.abort(&mut env);

    let mut wtxn = env.write_txn().unwrap();
    db.clear(&mut wtxn).unwrap();
    wtxn.commit(&mut env).unwrap();
    let rtxn = env.read_txn().unwrap();
    assert_eq!(db.get(&rtxn, &String::from("b")).unwrap(), None);
    rtxn.abort(&mut env);
}

#[test]
fn stale_handle_is_reported() {
    let mut env = open_env();
    let rtxn = env.read_txn().unwrap();
    // The table is created after the snapshot was taken.
    let db = env.create_database::<Str, Str>(&b"late".to_vec()).unwrap();
    let r = db.get(&rtxn, &String::from("k"));
    assert!(matches!(r, Err(Error::Mdb(MdbError::BadDbi))));
    rtxn.abort(&mut env);
}

#[test]
fn stored_bytes_the_value_codec_refuses_are_a_decoding_error() {
    let mut env = open_env();
    let db = env.create_database::<Str, Str>(&b"t".to_vec()).unwrap();
    let mut wtxn = env.write_txn().unwrap();
    db.put(&mut wtxn, &String::from("k"), &String::from("ok")).unwrap();

    // Replace the value through the raw cursor layer with bytes that are
    // not valid UTF-8; the typed read must refuse them.
    let mut cursor = heed::cursor::RwCursor::new(&wtxn, db.dbi()).unwrap();
    cursor.move_on_first(&mut wtxn).unwrap().unwrap();
    assert!(cursor.put_current(&mut wtxn, b"k", &[0xff, 0xfe]).unwrap());
    wtxn.commit(&mut env).unwrap();

    let rtxn = env.read_txn().unwrap();
    let r = db.get(&rtxn, &String::from("k"));
    assert_eq!(r, Err(Error::Decoding(heed::CodecError::InvalidEncoding)));
    rtxn.abort(&mut env);
}

#[test]
fn malformed_identifier_keys_are_a_decoding_error() {
    let mut env = open_env();
    let db = env
        .create_database::<OwnedType<heed::fixed::BEU32>, Str>(&b"ids".to_vec())
        .unwrap();
    let mut wtxn = env.write_txn().unwrap();
    // Append a key that is not four bytes wide through the raw cursor layer.
    let mut cursor = heed::cursor::RwCursor::new(&wtxn, db.dbi()).unwrap();
    cursor.append(&mut wtxn, b"xy", b"value").unwrap();
    let dbi = db.dbi();
    wtxn.commit(&mut env).unwrap();

    let rtxn = env.read_txn().unwrap();
    let r = heed::ids::DiscoverIds::new(&rtxn, dbi);
    assert!(matches!(r, Err(Error::Decoding(heed::CodecError::SizeMismatch))));
    rtxn.abort(&mut env);
}

#[test]
fn cursor_for_an_unknown_table_is_refused() {
    let mut env = open_env();
    let rtxn = env.read_txn().unwrap();
    let r = heed::cursor::RoCursor::new(&rtxn, 5);
    assert!(matches!(r, Err(Error::Mdb(MdbError::BadDbi))));
    rtxn.abort(&mut env);
}

#[test]
fn iteration_is_ordered_both_ways() {
    let mut env = open_env();
    let db = env.create_database::<Str, Str>(&b"t".to_vec()).unwrap();
    let mut wtxn = env.write_txn().unwrap();
    for (k, v) in [("bb", "2"), ("aa", "1"), ("cc", "3")] {
        db.put(&mut wtxn, &String::from(k), &String::from(v)).unwrap();
    }
    wtxn.commit(&mut env).unwrap();

    let rtxn = env.read_txn().unwrap();
    let mut iter = db.iter(&rtxn).unwrap();
    let mut seen: Vec<(String, String)> = Vec::new();
    while let Some(kv) = iter.next(&rtxn).unwrap() {
        seen.push(kv);
    }
    assert_eq!(
        seen,
        vec![
            (String::from("aa"), String::from("1")),
            (String::from("bb"), String::from("2")),
            (String::from("cc"), String::from("3")),
        ]
    );

    let mut rev = db.rev_iter(&rtxn).unwrap();
    let mut seen_rev: Vec<String> = Vec::new();
    while let Some((k, _)) = rev.next(&rtxn).unwrap() {
        seen_rev.push(k);
    }
    assert_eq!(seen_rev, vec!["cc", "bb", "aa"]);
    rtxn.abort(&mut env);
}
