use delegator_core::catalog::{
    catalog_start, explore, explore_page, ids_from_query, primary_image, product_lookup,
    recommendations_flow, resale_price, search_history, suggestions, ExploreError, ExploreRequest,
};
use delegator_core::events::EventTopic;
use delegator_core::headers::Features;
use delegator_core::json::Json;

fn text(x: &str) -> Json {
    Json::String(x.to_string())
}

fn obj(pairs: Vec<(&str, Json)>) -> Json {
    Json::Object(pairs.into_iter().map(|(k, v)| (k.to_string(), v)).collect())
}

#[test]
fn page_tokens() {
    assert_eq!(explore_page(None), Ok((0, None)));
    assert_eq!(explore_page(Some("1")), Ok((0, None)));
    assert_eq!(explore_page(Some("3")), Ok((2, None)));
    assert_eq!(explore_page(Some("catalog:10")), Ok((10, None)));
    assert_eq!(
        explore_page(Some("catalog:10:b1:b2")),
        Ok((10, Some(String::from("b1:b2"))))
    );
    assert_eq!(explore_page(Some("other:5")), Ok((0, None)));
    assert_eq!(explore_page(Some("x")), Err(ExploreError::InvalidPage));
    assert_eq!(explore_page(Some("catalog:x")), Err(ExploreError::InvalidPage));
    assert_eq!(explore_page(Some("99999999999")), Err(ExploreError::InvalidPage));
}

#[test]
fn recommendation_choice() {
    let on = Features { recommendations: true, debug: false };
    assert!(recommendations_flow(0, false, true, &on));
    assert!(!recommendations_flow(1, false, true, &on));
    assert!(!recommendations_flow(0, true, true, &on));
    assert!(!recommendations_flow(0, false, false, &on));
    assert!(!recommendations_flow(0, false, true, &Features::empty()));
    assert_eq!(catalog_start(5, true, &on), 4);
    assert_eq!(catalog_start(5, false, &on), 5);
}

#[test]
fn query_ids() {
    let pairs = vec![
        (String::from("id"), String::from("a")),
        (String::from("x"), String::from("b")),
        (String::from("id"), String::from("c")),
    ];
    assert_eq!(ids_from_query(&pairs), vec![String::from("a"), String::from("c")]);
}

#[test]
fn image_of_first_result() {
    let result = obj(vec![(
        "results",
        Json::Array(vec![obj(vec![("primary_image", text("http://img/1.jpg"))])]),
    )]);
    assert_eq!(primary_image(&result), Some(String::from("http://img/1.jpg")));
    assert_eq!(primary_image(&obj(vec![("results", Json::Array(vec![]))])), None);
    assert_eq!(primary_image(&Json::Null), None);
}

#[test]
fn lookup_cryptogram_shape() {
    let c = product_lookup(vec![String::from("pv-a")]);
    assert_eq!(c.steps.len(), 1);
    assert_eq!(c.steps[0].service.as_deref(), Some("catalog"));
    assert_eq!(c.steps[0].method.as_deref(), Some("lookup"));
    assert_eq!(
        c.steps[0].payload,
        Some(obj(vec![("product_variant_ids", Json::Array(vec![text("pv-a")]))]))
    );
}

fn topic() -> EventTopic {
    EventTopic { queue_url: String::from("queue://actions") }
}

#[test]
fn explore_from_recommendations() {
    let req = ExploreRequest { q: None, size: Some(12), start: None, search_id: None };
    let on = Features { recommendations: true, debug: false };
    let c = explore(
        &req,
        &Some(String::from("o1")),
        &Some(String::from("s:o1.ab/c+d")),
        &on,
        5,
        &topic(),
    )
    .unwrap();
    assert_eq!(c.steps.len(), 3);
    assert_eq!(c.steps[0].service.as_deref(), Some("identity"));
    assert_eq!(c.steps[0].memoization_prefix.as_deref(), Some("o1-"));
    assert_eq!(
        c.steps[0].headers,
        vec![(String::from("Cookie"), String::from("appreciate-auth=s%3Ao1.ab%2Fc%2Bd"))]
    );
    assert_eq!(c.steps[1].method.as_deref(), Some("explore"));
    assert_eq!(c.steps[2].method.as_deref(), Some("lookup"));
}

#[test]
fn explore_from_search() {
    let req = ExploreRequest {
        q: Some(String::from("bags")),
        size: None,
        start: Some(String::from("catalog:20:b")),
        search_id: None,
    };
    let c = explore(&req, &None, &None, &Features::empty(), 5, &topic()).unwrap();
    assert_eq!(c.steps.len(), 2);
    assert_eq!(c.steps[0].service.as_deref(), Some("catalog"));
    assert_eq!(c.steps[0].method.as_deref(), Some("explore"));
    assert_eq!(
        c.steps[0].payload,
        Some(obj(vec![
            ("q", text("bags")),
            ("start", Json::Number(delegator_core::json::Number::PosInt(20))),
            ("bucket_info", text("b")),
            ("size", Json::Number(delegator_core::json::Number::PosInt(10))),
        ]))
    );
    let bad = ExploreRequest { q: None, size: None, start: Some(String::from("zz")), search_id: None };
    assert!(matches!(
        explore(&bad, &None, &None, &Features::empty(), 5, &topic()),
        Err(ExploreError::InvalidPage)
    ));
}

#[test]
fn one_step_cryptograms() {
    let c = suggestions(String::from("lou"));
    assert_eq!(c.steps[0].method.as_deref(), Some("autocomplete"));
    assert_eq!(c.steps[0].payload, Some(obj(vec![("q", text("lou"))])));
    let c = search_history(None);
    assert_eq!(c.steps[0].payload, Some(obj(vec![("owner_id", Json::Null)])));
    let c = resale_price(String::from("b"), String::from("u"), String::from("q"), None);
    assert_eq!(c.steps[0].service.as_deref(), Some("pricing"));
}
