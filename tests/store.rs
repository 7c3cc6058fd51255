use aidb::codec::DbError;
use aidb::record::{filter_records, Record};
use aidb::store::{recycle_cache, CredentialStore};
use std::sync::Arc;

fn rec(id: &str, title: &str, url: &str, notes: &str) -> Record {
    Record::new(id.to_string(), title.to_string(), "u".to_string(), "p".to_string(), url.to_string(), notes.to_string())
}

#[test]
fn cold_cache_gives_nothing() {
    let mut c = CredentialStore::new();
    assert!(c.cached(10).is_none());
}

#[test]
fn fill_then_cached_shares_records() {
    let mut c = CredentialStore::new();
    let a = c.fill(Ok(vec![rec("1", "bank", "", "")]), 10).unwrap();
    let b = c.cached(20).unwrap();
    let d = c.cached(30).unwrap();
    assert!(Arc::ptr_eq(&a, &b));
    assert!(Arc::ptr_eq(&b, &d));
    assert_eq!(b.len(), 1);
}

#[test]
fn failed_fill_leaves_cache_cold() {
    let mut c = CredentialStore::new();
    assert_eq!(c.fill(Err(DbError::CorruptPayload), 10).err(), Some(DbError::CorruptPayload));
    assert!(c.cached(10).is_none());
}

#[test]
fn idle_cache_is_dropped() {
    let mut c = CredentialStore::new();
    c.fill(Ok(vec![]), 100).unwrap();
    recycle_cache(&mut c, 600, 700);
    assert!(c.cached(700).is_some());
    recycle_cache(&mut c, 600, 1301);
    assert!(c.cached(1301).is_none());
}

#[test]
fn use_refreshes_idle_clock() {
    let mut c = CredentialStore::new();
    c.fill(Ok(vec![]), 0).unwrap();
    assert!(c.cached(500).is_some());
    recycle_cache(&mut c, 600, 1000);
    assert!(c.cached(1000).is_some());
}

#[test]
fn query_keeps_matching_records() {
    let recs = vec![
        rec("1", "My Bank", "", ""),
        rec("2", "mail", "https://bank.example", ""),
        rec("3", "forum", "", "old bank login"),
        rec("4", "shop", "https://shop.example", "nothing"),
        rec("5", "banking", "", ""),
    ];
    let r = filter_records(&recs, "bank");
    let ids: Vec<&str> = r.iter().map(|x| x.id.as_str()).collect();
    assert_eq!(ids, vec!["2", "3", "5"]);
    let all = filter_records(&recs, "");
    assert_eq!(all.len(), 5);
    assert_eq!(filter_records(&recs, "zzz").len(), 0);
    assert!(recs[0].matches("Bank"));
    assert!(!recs[0].matches("bank"));
}

#[test]
fn query_on_multibyte_text() {
    let recs = vec![rec("1", "银行账户", "", ""), rec("2", "邮箱", "", "")];
    let r = filter_records(&recs, "银行");
    assert_eq!(r.len(), 1);
    assert_eq!(r[0].title, "银行账户");
}
