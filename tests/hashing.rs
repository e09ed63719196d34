use delegator_core::cache::MemoizationCache;
use delegator_core::hash::{canonical_bytes, hash_value, memo_key, memo_key_of};
use delegator_core::json::{Json, Number};

fn obj(pairs: Vec<(&str, Json)>) -> Json {
    Json::Object(pairs.into_iter().map(|(k, v)| (k.to_string(), v)).collect())
}

fn num(n: u64) -> Json {
    Json::Number(Number::PosInt(n))
}

#[test]
fn canonical_hash_ignores_key_order() {
    let a = obj(vec![("a", num(1)), ("b", num(2))]);
    let b = obj(vec![("b", num(2)), ("a", num(1))]);
    assert_eq!(hash_value(&a), hash_value(&b));
    let prefix = String::from("u1-");
    assert_eq!(memo_key_of(&prefix, &a), memo_key_of(&prefix, &b));
    assert_ne!(hash_value(&a), hash_value(&obj(vec![("a", num(1)), ("b", num(3))])));
}

#[test]
fn canonical_bytes_by_kind() {
    assert_eq!(canonical_bytes(&Json::Null), vec![0u8]);
    assert_eq!(canonical_bytes(&Json::Bool(true)), vec![1u8]);
    assert_eq!(canonical_bytes(&num(258)), vec![0, 0, 0, 0, 0, 0, 1, 2]);
    assert_eq!(canonical_bytes(&Json::Number(Number::NegInt(-1))), vec![255u8; 8]);
    assert_eq!(canonical_bytes(&Json::String(String::from("hé"))), vec![104, 195, 169]);
    assert_eq!(
        canonical_bytes(&obj(vec![("b", Json::Bool(true)), ("a", Json::Null)])),
        vec![97, 0, 98, 1]
    );
    assert_eq!(canonical_bytes(&Json::Array(vec![Json::Null, Json::Bool(false)])), vec![0, 0]);
}

#[test]
fn hash_is_lower_hex() {
    let h = hash_value(&obj(vec![("q", Json::String(String::from("shoes")))]));
    assert!(!h.is_empty() && h.len() <= 16);
    assert!(h.chars().all(|c| c.is_ascii_digit() || ('a'..='f').contains(&c)));
    assert_ne!(h, "shoes");
}

#[test]
fn memo_key_appends_hex() {
    assert_eq!(memo_key(&String::from("u1-"), 0xbeef), "u1-beef");
    assert_eq!(memo_key(&String::from(""), 0), "0");
}

#[test]
fn cache_entries_expire() {
    let mut cache = MemoizationCache::new();
    let key = String::from("k");
    let back = cache.insert(key.clone(), num(5), 1000, 10);
    assert_eq!(back, num(5));
    assert_eq!(cache.get(&key, 10), Some(num(5)));
    assert_eq!(cache.get(&key, 1010), Some(num(5)));
    assert_eq!(cache.get(&key, 1011), None);
    assert_eq!(cache.get(&String::from("other"), 10), None);
    cache.insert(key.clone(), num(6), 5, 2000);
    assert_eq!(cache.get(&key, 2003), Some(num(6)));
}
