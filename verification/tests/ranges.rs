//! Bounded and prefixed traversal.

use heed::env::{Env, EnvOpenOptions};
use heed::iter::RangeBound;
use heed::types::Str;

fn env_with_words() -> (Env, heed::database::Database<Str, Str>) {
    let mut env = EnvOpenOptions::new().max_dbs(4).open().unwrap();
    let db = env.create_database::<Str, Str>(&b"t".to_vec()).unwrap();
    let mut wtxn = env.write_txn().unwrap();
    for (k, v) in [("apple", "1"), ("apricot", "2"), ("banana", "3"), ("cherry", "4")] {
        db.put(&mut wtxn, &String::from(k), &String::from(v)).unwrap();
    }
    wtxn.commit(&mut env).unwrap();
    (env, db)
}

#[test]
fn range_respects_both_bounds() {
    let (mut env, db) = env_with_words();
    let rtxn = env.read_txn().unwrap();

    let low = String::from("apricot");
    let high = String::from("cherry");
    let mut range = db
        .range(&rtxn, RangeBound::Included(&low), RangeBound::Excluded(&high))
        .unwrap();
    let mut seen: Vec<String> = Vec::new();
    while let Some((k, _)) = range.next(&rtxn).unwrap() {
        seen.push(k);
    }
    assert_eq!(seen, vec!["apricot", "banana"]);

    let mut range = db
        .range(&rtxn, RangeBound::Excluded(&low), RangeBound::Included(&high))
        .unwrap();
    let mut seen: Vec<String> = Vec::new();
    while let Some((k, _)) = range.next(&rtxn).unwrap() {
        seen.push(k);
    }
    assert_eq!(seen, vec!["banana", "cherry"]);

    let mut range = db
        .range(&rtxn, RangeBound::Unbounded, RangeBound::Unbounded)
        .unwrap();
    let mut seen: Vec<String> = Vec::new();
    while let Some((k, _)) = range.next(&rtxn).unwrap() {
        seen.push(k);
    }
    assert_eq!(seen, vec!["apple", "apricot", "banana", "cherry"]);
    rtxn.abort(&mut env);
}

#[test]
fn range_can_be_empty() {
    let (mut env, db) = env_with_words();
    let rtxn = env.read_txn().unwrap();
    let low = String::from("banana");
    let high = String::from("banana");
    let mut range = db
        .range(&rtxn, RangeBound::Excluded(&low), RangeBound::Included(&high))
        .unwrap();
    assert!(range.next(&rtxn).unwrap().is_none());
    assert!(range.next(&rtxn).unwrap().is_none());
    rtxn.abort(&mut env);
}

#[test]
fn rev_range_walks_downward_inside_the_bounds() {
    let (mut env, db) = env_with_words();
    let rtxn = env.read_txn().unwrap();

    let low = String::from("apricot");
    let high = String::from("cherry");
    let mut range = db
        .rev_range(&rtxn, RangeBound::Included(&low), RangeBound::Excluded(&high))
        .unwrap();
    let mut seen: Vec<String> = Vec::new();
    while let Some((k, _)) = range.next(&rtxn).unwrap() {
        seen.push(k);
    }
    assert_eq!(seen, vec!["banana", "apricot"]);

    let mut range = db
        .rev_range(&rtxn, RangeBound::Unbounded, RangeBound::Included(&high))
        .unwrap();
    let mut seen: Vec<String> = Vec::new();
    while let Some((k, _)) = range.next(&rtxn).unwrap() {
        seen.push(k);
    }
    assert_eq!(seen, vec!["cherry", "banana", "apricot", "apple"]);
    rtxn.abort(&mut env);
}

#[test]
fn prefix_yields_exactly_the_prefixed_keys() {
    let (mut env, db) = env_with_words();
    let rtxn = env.read_txn().unwrap();

    let mut prefixed = db.prefix(&rtxn, b"ap").unwrap();
    let mut seen: Vec<(String, String)> = Vec::new();
    while let Some(kv) = prefixed.next(&rtxn).unwrap() {
        seen.push(kv);
    }
    assert_eq!(
        seen,
        vec![
            (String::from("apple"), String::from("1")),
            (String::from("apricot"), String::from("2")),
        ]
    );

    let mut none = db.prefix(&rtxn, b"zz").unwrap();
    assert!(none.next(&rtxn).unwrap().is_none());
    rtxn.abort(&mut env);
}
