use rredis::store::{SetMode, SetOptions, Store};

fn key(s: &str) -> String {
    s.to_string()
}

fn opts(mode: SetMode) -> SetOptions {
    SetOptions { mode, expire: None, keep_ttl: false }
}

#[test]
fn unwritten_key_is_absent() {
    let s = Store::new();
    assert_eq!(s.get(&key("missing"), 0), None);
    assert_eq!(s.ttl_ms(&key("missing"), 0), None);
    assert!(!s.is_live(&key("missing"), 0));
    assert_eq!(s.exists_count(&[key("missing")], 0), 0);
}

#[test]
fn set_default_then_get_returns_value() {
    let mut s = Store::new();
    let applied = s.set(&key("k"), b"payload".to_vec(), SetOptions::default(), 7);
    assert!(applied);
    assert_eq!(s.get(&key("k"), 7), Some(b"payload".to_vec()));
    assert_eq!(s.get(&key("k"), 1_000_000), Some(b"payload".to_vec()));
}

#[test]
fn set_nx_stores_once() {
    let mut s = Store::new();
    assert!(s.set(&key("k"), b"v1".to_vec(), opts(SetMode::Nx), 0));
    assert_eq!(s.get(&key("k"), 0), Some(b"v1".to_vec()));
    assert!(!s.set(&key("k"), b"v2".to_vec(), opts(SetMode::Nx), 0));
    assert_eq!(s.get(&key("k"), 0), Some(b"v1".to_vec()));
}

#[test]
fn set_xx_needs_a_present_key() {
    let mut s = Store::new();
    assert!(!s.set(&key("k"), b"v1".to_vec(), opts(SetMode::Xx), 0));
    assert_eq!(s.get(&key("k"), 0), None);
    assert_eq!(s.ttl_ms(&key("k"), 0), None);
    assert!(s.set(&key("k"), b"v1".to_vec(), opts(SetMode::Default), 0));
    assert!(s.set(&key("k"), b"v2".to_vec(), opts(SetMode::Xx), 0));
    assert_eq!(s.get(&key("k"), 0), Some(b"v2".to_vec()));
}

#[test]
fn expired_key_reads_absent() {
    let mut s = Store::new();
    assert!(s.set(&key("k"), b"v".to_vec(), SetOptions::default(), 0));
    // an expiration at the current instant has already passed by then
    assert!(s.expire_at(&key("k"), 5, 0));
    assert_eq!(s.get(&key("k"), 4), Some(b"v".to_vec()));
    assert_eq!(s.ttl_ms(&key("k"), 4), Some(1));
    assert_eq!(s.get(&key("k"), 5), None);
    assert_eq!(s.ttl_ms(&key("k"), 5), Some(-1));
    assert!(!s.is_live(&key("k"), 5));
}

#[test]
fn persist_clears_expiration() {
    let mut s = Store::new();
    assert!(s.set(&key("k"), b"v".to_vec(), SetOptions::default(), 0));
    assert!(s.expire_at(&key("k"), 10_000, 0));
    assert_eq!(s.ttl_ms(&key("k"), 4_000), Some(6_000));
    assert!(s.persist(&key("k"), 0));
    assert_eq!(s.ttl_ms(&key("k"), 4_000), Some(-1));
    assert_eq!(s.get(&key("k"), 4_000), Some(b"v".to_vec()));
    assert_eq!(s.get(&key("k"), 1_000_000), Some(b"v".to_vec()));
}

#[test]
fn persist_misses_absent_or_expired_keys() {
    let mut s = Store::new();
    assert!(!s.persist(&key("k"), 0));
    assert!(s.set(&key("k"), b"v".to_vec(), SetOptions::default(), 0));
    assert!(s.expire_at(&key("k"), 5, 0));
    assert!(!s.persist(&key("k"), 5));
    assert!(!s.expire_at(&key("k"), 9, 5));
}

#[test]
fn del_and_exists_count_present_keys() {
    let mut s = Store::new();
    assert!(s.set(&key("k1"), b"v".to_vec(), SetOptions::default(), 0));
    assert_eq!(s.exists_count(&[key("k1"), key("k2")], 0), 1);
    assert_eq!(s.del(&[key("k1"), key("k2")], 0), 1);
    assert_eq!(s.get(&key("k1"), 0), None);
}

#[test]
fn del_counts_each_key_once() {
    let mut s = Store::new();
    assert!(s.set(&key("k"), b"v".to_vec(), SetOptions::default(), 0));
    assert_eq!(s.del(&[key("k"), key("k")], 0), 1);
}

#[test]
fn exists_counts_duplicates_independently() {
    let mut s = Store::new();
    assert!(s.set(&key("k"), b"v".to_vec(), SetOptions::default(), 0));
    assert_eq!(s.exists_count(&[key("k"), key("k")], 0), 2);
}

#[test]
fn explicit_expire_option_wins_over_keep_ttl() {
    let mut s = Store::new();
    assert!(s.set(&key("k"), b"v1".to_vec(), SetOptions::default(), 0));
    assert!(s.expire_at(&key("k"), 10_000, 0));
    // keep_ttl preserves the prior expiration
    let keep = SetOptions { mode: SetMode::Default, expire: None, keep_ttl: true };
    assert!(s.set(&key("k"), b"v2".to_vec(), keep, 0));
    assert_eq!(s.ttl_ms(&key("k"), 0), Some(10_000));
    // an explicit expiration overrides keep_ttl
    let explicit = SetOptions { mode: SetMode::Default, expire: Some(20_000), keep_ttl: true };
    assert!(s.set(&key("k"), b"v3".to_vec(), explicit, 0));
    assert_eq!(s.ttl_ms(&key("k"), 0), Some(20_000));
    // a plain write clears the expiration
    assert!(s.set(&key("k"), b"v4".to_vec(), SetOptions::default(), 0));
    assert_eq!(s.ttl_ms(&key("k"), 0), Some(-1));
}

#[test]
fn set_nx_overwrites_an_expired_key() {
    let mut s = Store::new();
    assert!(s.set(&key("k"), b"old".to_vec(), SetOptions::default(), 0));
    assert!(s.expire_at(&key("k"), 5, 0));
    assert!(s.set(&key("k"), b"new".to_vec(), opts(SetMode::Nx), 5));
    assert_eq!(s.get(&key("k"), 5), Some(b"new".to_vec()));
}

#[test]
fn expire_at_misses_absent_keys() {
    let mut s = Store::new();
    assert!(!s.expire_at(&key("k"), 10, 0));
    assert_eq!(s.ttl_ms(&key("k"), 0), None);
}

#[test]
fn entry_holds_its_value() {
    let e = rredis::store::Entry::new(b"abc".to_vec());
    assert_eq!(e.get_value(), &b"abc".to_vec());
}

#[test]
fn persist_is_idempotent_on_live_keys() {
    let mut s = Store::new();
    assert!(s.set(&key("k"), b"v".to_vec(), SetOptions::default(), 0));
    // clearing an expiration that was never set still reports success
    assert!(s.persist(&key("k"), 0));
    assert!(s.persist(&key("k"), 0));
    assert_eq!(s.ttl_ms(&key("k"), 0), Some(-1));
}
