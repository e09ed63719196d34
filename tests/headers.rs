use delegator_core::headers::{hmac_verify, split_signed, Authorization, Features};

const SIG: &str = "a5XvMdf11xI1IqmiW5z6PPKWHE7C77gNyNOIyJaRUiM";

#[test]
fn signed_token_names_its_owner() {
    let token = format!("owner-42.{}", SIG);
    assert_eq!(hmac_verify(&token, "topsecret"), Some(String::from("owner-42")));
    assert_eq!(hmac_verify(&token, "othersecret"), None);
    assert_eq!(hmac_verify("owner-42.bogus", "topsecret"), None);
    assert_eq!(hmac_verify("no-dot-here", "topsecret"), None);
}

#[test]
fn signed_token_splits_at_last_dot() {
    assert_eq!(
        split_signed("a.b.c"),
        Some((String::from("a.b"), String::from("c")))
    );
    assert_eq!(split_signed("abc"), None);
}

#[test]
fn bearer_header_forms() {
    let legacy = format!("Bearer s:owner-42.{}", SIG);
    match Authorization::from_header(&legacy, Some("topsecret")) {
        Authorization::Bearer(f) => {
            assert_eq!(f.owner_id, "owner-42");
            assert_eq!(f.raw_value, format!("s:owner-42.{}", SIG));
        }
        Authorization::Empty => panic!("expected a bearer"),
    }
    let direct = format!("Bearer owner-42.{}", SIG);
    assert!(matches!(
        Authorization::from_header(&direct, Some("topsecret")),
        Authorization::Bearer(_)
    ));
    assert!(matches!(Authorization::from_header(&direct, None), Authorization::Empty));
    assert!(matches!(Authorization::from_header("Basic abc", Some("topsecret")), Authorization::Empty));
    assert!(matches!(Authorization::empty(), Authorization::Empty));
}

#[test]
fn feature_header() {
    let f = Features::from_header("recommendations,debug");
    assert!(f.recommendations && f.debug);
    let f = Features::from_header("debugging,recommendations");
    assert!(f.recommendations && !f.debug);
    assert_eq!(Features::from_header(""), Features::empty());
}
