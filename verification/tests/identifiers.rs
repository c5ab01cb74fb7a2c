//! Gap discovery and name-aware identifier allocation.

use heed::env::{Env, EnvOpenOptions};
use heed::fixed::BEU32;
use heed::ids::{DiscoverIds, IdsMap};
use heed::types::{OwnedType, Str};

fn env_with_ids(keys: &[u32]) -> (Env, usize) {
    let mut env = EnvOpenOptions::new().max_dbs(4).open().unwrap();
    let db = env.create_database::<OwnedType<BEU32>, Str>(&b"ids".to_vec()).unwrap();
    let mut wtxn = env.write_txn().unwrap();
    for &k in keys {
        db.put(&mut wtxn, &BEU32::new(k), &String::from("x")).unwrap();
    }
    let dbi = db.dbi();
    wtxn.commit(&mut env).unwrap();
    (env, dbi)
}

fn take(scan: &mut DiscoverIds, rtxn: &heed::txn::RoTxn, count: usize) -> Vec<u32> {
    let mut out = Vec::new();
    for _ in 0..count {
        match scan.next(rtxn) {
            Some(id) => out.push(id),
            None => break,
        }
    }
    out
}

#[test]
fn one_id_fills_the_first_gap() {
    let (mut env, dbi) = env_with_ids(&[0, 1, 3, 4]);
    let rtxn = env.read_txn().unwrap();
    let mut scan = DiscoverIds::new(&rtxn, dbi).unwrap();
    assert_eq!(take(&mut scan, &rtxn, 1), vec![2]);
    rtxn.abort(&mut env);
}

#[test]
fn three_ids_fill_the_gap_then_continue_after_the_last_key() {
    let (mut env, dbi) = env_with_ids(&[0, 1, 3, 4]);
    let rtxn = env.read_txn().unwrap();
    let mut scan = DiscoverIds::new(&rtxn, dbi).unwrap();
    assert_eq!(take(&mut scan, &rtxn, 3), vec![2, 5, 6]);
    rtxn.abort(&mut env);
}

#[test]
fn hundred_and_one_ids_from_a_dense_table_with_one_gap() {
    let keys: Vec<u32> = (0u32..100).filter(|&k| k != 2).collect();
    let (mut env, dbi) = env_with_ids(&keys);
    let rtxn = env.read_txn().unwrap();
    let mut scan = DiscoverIds::new(&rtxn, dbi).unwrap();
    let got = take(&mut scan, &rtxn, 101);
    let mut expected = vec![2u32];
    expected.extend(100u32..=199);
    assert_eq!(got, expected);
    // The sequence keeps counting upward from there.
    assert_eq!(scan.next(&rtxn), Some(200));
    rtxn.abort(&mut env);
}

#[test]
fn empty_table_yields_from_zero() {
    let (mut env, dbi) = env_with_ids(&[]);
    let rtxn = env.read_txn().unwrap();
    let mut scan = DiscoverIds::new(&rtxn, dbi).unwrap();
    assert_eq!(take(&mut scan, &rtxn, 4), vec![0, 1, 2, 3]);
    rtxn.abort(&mut env);
}

#[test]
fn scan_is_strictly_ascending_and_skips_used_keys() {
    let (mut env, dbi) = env_with_ids(&[1, 2, 5, 8]);
    let rtxn = env.read_txn().unwrap();
    let mut scan = DiscoverIds::new(&rtxn, dbi).unwrap();
    assert_eq!(take(&mut scan, &rtxn, 6), vec![0, 3, 4, 6, 7, 9]);
    rtxn.abort(&mut env);
}

fn ids_map(env: &mut Env) -> IdsMap {
    let ids_userids = env.create_database::<OwnedType<BEU32>, Str>(&b"ids-userids".to_vec()).unwrap();
    let userids_ids = env.create_database::<Str, OwnedType<BEU32>>(&b"userids-ids".to_vec()).unwrap();
    IdsMap { ids_userids, userids_ids }
}

#[test]
fn known_names_keep_their_ids_and_unknown_names_fill_gaps() {
    let mut env = EnvOpenOptions::new().max_dbs(4).open().unwrap();
    let map = ids_map(&mut env);

    let mut wtxn = env.write_txn().unwrap();
    map.insert_id(&mut wtxn, 0, &String::from("hello0")).unwrap();
    map.insert_id(&mut wtxn, 1, &String::from("hello1")).unwrap();
    map.insert_id(&mut wtxn, 3, &String::from("hello3")).unwrap();
    map.insert_id(&mut wtxn, 4, &String::from("hello4")).unwrap();
    wtxn.commit(&mut env).unwrap();

    let rtxn = env.read_txn().unwrap();
    let names: Vec<String> = ["unknownA", "unknownB", "hello0", "hello1", "unknownC", "hello3", "hello4"]
        .iter()
        .map(|s| String::from(*s))
        .collect();
    let ids = map.generate_ids(&rtxn, &names).unwrap();
    assert_eq!(ids, vec![2, 5, 0, 1, 6, 3, 4]);
    rtxn.abort(&mut env);
}

#[test]
fn generation_writes_nothing() {
    let mut env = EnvOpenOptions::new().max_dbs(4).open().unwrap();
    let map = ids_map(&mut env);

    let mut wtxn = env.write_txn().unwrap();
    map.insert_id(&mut wtxn, 0, &String::from("zero")).unwrap();
    wtxn.commit(&mut env).unwrap();

    let rtxn = env.read_txn().unwrap();
    let names = vec![String::from("a"), String::from("b")];
    assert_eq!(map.generate_ids(&rtxn, &names).unwrap(), vec![1, 2]);
    // The same request again yields the same identifiers: nothing was
    // recorded by generation alone.
    assert_eq!(map.generate_ids(&rtxn, &names).unwrap(), vec![1, 2]);
    rtxn.abort(&mut env);
}

#[test]
fn ids_near_the_maximum_are_still_allocated_below_it() {
    // A stored key near the top of the identifier space leaves the
    // identifiers below it available as usual.
    let (mut env, dbi) = env_with_ids(&[0, u32::MAX - 1]);
    let rtxn = env.read_txn().unwrap();
    let mut scan = DiscoverIds::new(&rtxn, dbi).unwrap();
    assert_eq!(take(&mut scan, &rtxn, 3), vec![1, 2, 3]);
    rtxn.abort(&mut env);
}

#[test]
fn repeated_unknown_names_consume_successive_ids() {
    let mut env = EnvOpenOptions::new().max_dbs(4).open().unwrap();
    let map = ids_map(&mut env);
    let rtxn = env.read_txn().unwrap();
    let names = vec![String::from("same"), String::from("same")];
    // Generation records nothing, so the same unknown name consumes two
    // successive identifiers within one request.
    assert_eq!(map.generate_ids(&rtxn, &names).unwrap(), vec![0, 1]);
    rtxn.abort(&mut env);
}
