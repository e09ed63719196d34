use delegator_core::cache::MemoizationCache;
use delegator_core::cryptogram::{Cryptogram, CryptogramStep};
use delegator_core::evaluator::{prime_first_step, EvaluateError, Evaluation, Progress};
use delegator_core::json::{Json, Number};
use delegator_core::parse::parse;
use delegator_core::registry::{HttpMethod, Scheme, ServiceDefinition, Services};
use delegator_core::translate::{make_state, Language, State, TranslateContext};

fn text(x: &str) -> Json {
    Json::String(x.to_string())
}

fn obj(pairs: Vec<(&str, Json)>) -> Json {
    Json::Object(pairs.into_iter().map(|(k, v)| (k.to_string(), v)).collect())
}

fn catalog() -> Services {
    let mut services = Services::new();
    let mut catalog = ServiceDefinition::rest(Scheme::Http, String::from("catalog.local"));
    catalog.add_method(String::from("search"), HttpMethod::Post, String::from("/search/"));
    catalog.add_method(String::from("lookup"), HttpMethod::Post, String::from("/product_variants/"));
    services.add(String::from("catalog"), catalog);
    services
}

/// Runs an evaluation whose backend hands every request body back as its
/// response; counts the calls made.
fn run_echo(
    cryptogram: Cryptogram,
    cache: &mut MemoizationCache,
    services: &Services,
    state: &mut State,
    now: u64,
) -> (Result<Json, EvaluateError>, usize) {
    let ctx = TranslateContext::noop();
    let mut calls = 0;
    let mut ev = match Evaluation::start(cryptogram) {
        Ok(ev) => ev,
        Err(e) => return (Err(e), calls),
    };
    loop {
        match ev.advance(&ctx, cache, services, state, now) {
            Err(e) => return (Err(e), calls),
            Ok(Progress::Done(v)) => return (Ok(v), calls),
            Ok(Progress::Continue) => {}
            Ok(Progress::Request(req)) => {
                calls += 1;
                match ev.complete(&ctx, cache, state, req.body, now) {
                    Err(e) => return (Err(e), calls),
                    Ok(Progress::Done(v)) => return (Ok(v), calls),
                    Ok(_) => {}
                }
            }
        }
    }
}

const PVID: &str = "12313bb7-6068-4ec9-ac49-3e834181f127";

#[test]
fn two_step_search_then_lookup() {
    let search = CryptogramStep::build("catalog", "search")
        .payload(obj(vec![
            ("q", text("Foo")),
            ("results", Json::Array(vec![obj(vec![("product_variant_id", text(PVID))])])),
        ]))
        .postflight(Language::at("results").map(Language::Object(vec![
            (String::from("ids"), Language::array(Language::at("product_variant_id"))),
            (
                String::from("results"),
                Language::Const(obj(vec![(
                    "product_variants",
                    Json::Array(vec![obj(vec![("id", text(PVID))])]),
                )])),
            ),
        ])))
        .finish();
    let lookup = CryptogramStep::build("catalog", "lookup")
        .payload(Json::Null)
        .postflight(parse(r#"{ "results": .results }"#).unwrap())
        .finish();
    let cryptogram = Cryptogram { current: 0, steps: vec![search, lookup] };
    let (result, calls) =
        run_echo(cryptogram, &mut MemoizationCache::new(), &catalog(), &mut make_state(), 0);
    let expected = obj(vec![(
        "results",
        obj(vec![("product_variants", Json::Array(vec![obj(vec![("id", text(PVID))])]))]),
    )]);
    assert_eq!(result.unwrap(), expected);
    assert_eq!(calls, 2);
}

#[test]
fn memoized_step_calls_once() {
    let make = || Cryptogram {
        current: 0,
        steps: vec![CryptogramStep::build("catalog", "search")
            .payload(obj(vec![("q", text("shoes"))]))
            .memoization_prefix(String::from("u1-"))
            .finish()],
    };
    let mut cache = MemoizationCache::new();
    let services = catalog();
    let (first, calls1) = run_echo(make(), &mut cache, &services, &mut make_state(), 1000);
    let (second, calls2) = run_echo(make(), &mut cache, &services, &mut make_state(), 2000);
    assert_eq!(calls1, 1);
    assert_eq!(calls2, 0);
    assert_eq!(first.unwrap(), second.unwrap());
    // Past the ten minutes the entry is gone and the call is made again.
    let (_, calls3) = run_echo(make(), &mut cache, &services, &mut make_state(), 1000 + 600_001);
    assert_eq!(calls3, 1);
}

#[test]
fn scratchpad_carries_across_steps() {
    let first = CryptogramStep::build("catalog", "search")
        .payload(obj(vec![
            ("next_start", text("catalog:10")),
            ("product_variant_ids", Json::Array(vec![text("a")])),
        ]))
        .postflight(parse(r#".next_start | set("next_start"), { "results": .product_variant_ids }"#).unwrap())
        .finish();
    let second = CryptogramStep::build("catalog", "lookup")
        .payload(Json::Null)
        .postflight(parse(r#"{ "results": .results, "next_start": get("next_start") }"#).unwrap())
        .finish();
    let cryptogram = Cryptogram { current: 0, steps: vec![first, second] };
    let mut state = make_state();
    let (result, _) = run_echo(cryptogram, &mut MemoizationCache::new(), &catalog(), &mut state, 0);
    assert_eq!(
        result.unwrap(),
        obj(vec![("results", Json::Array(vec![text("a")])), ("next_start", text("catalog:10"))])
    );
    assert_eq!(state.lookup(&String::from("next_start")), Some(text("catalog:10")));
}

#[test]
fn inert_steps_shape_the_result() {
    let shape = CryptogramStep::inert()
        .payload(obj(vec![("a", Json::Number(Number::PosInt(1)))]))
        .postflight(parse(r#"{ "b": .a }"#).unwrap())
        .finish();
    let last = CryptogramStep::inert().payload(Json::Null).finish();
    let cryptogram = Cryptogram { current: 0, steps: vec![shape, last] };
    let (result, calls) =
        run_echo(cryptogram, &mut MemoizationCache::new(), &catalog(), &mut make_state(), 0);
    assert_eq!(result.unwrap(), obj(vec![("b", Json::Number(Number::PosInt(1)))]));
    assert_eq!(calls, 0);
}

#[test]
fn no_steps_is_an_error() {
    let (result, _) = run_echo(
        Cryptogram { current: 0, steps: vec![] },
        &mut MemoizationCache::new(),
        &catalog(),
        &mut make_state(),
        0,
    );
    assert!(matches!(result, Err(EvaluateError::NoStepsSpecified)));
}

#[test]
fn step_index_out_of_range() {
    let steps = vec![CryptogramStep::inert().payload(Json::Null).finish()];
    let (result, _) = run_echo(
        Cryptogram { current: 3, steps },
        &mut MemoizationCache::new(),
        &catalog(),
        &mut make_state(),
        0,
    );
    assert!(matches!(result, Err(EvaluateError::UnknownStep(3))));
}

#[test]
fn unknown_service_and_method() {
    let steps = vec![CryptogramStep::build("pricing", "lookup").payload(Json::Null).finish()];
    let (result, _) = run_echo(
        Cryptogram { current: 0, steps },
        &mut MemoizationCache::new(),
        &catalog(),
        &mut make_state(),
        0,
    );
    match result {
        Err(EvaluateError::UnknownService(name)) => assert_eq!(name, "pricing"),
        other => panic!("unexpected {:?}", other),
    }
    let steps = vec![CryptogramStep::build("catalog", "explore").payload(Json::Null).finish()];
    let (result, _) = run_echo(
        Cryptogram { current: 0, steps },
        &mut MemoizationCache::new(),
        &catalog(),
        &mut make_state(),
        0,
    );
    match result {
        Err(EvaluateError::UnknownMethod(s, m)) => {
            assert_eq!(s, "catalog");
            assert_eq!(m, "explore");
        }
        other => panic!("unexpected {:?}", other),
    }
}

#[test]
fn failing_preflight_is_invalid_structure() {
    let steps = vec![CryptogramStep::build("catalog", "search")
        .payload(obj(vec![("a", Json::Null)]))
        .preflight(Language::at("missing"))
        .finish()];
    let (result, calls) = run_echo(
        Cryptogram { current: 0, steps },
        &mut MemoizationCache::new(),
        &catalog(),
        &mut make_state(),
        0,
    );
    match result {
        Err(EvaluateError::InvalidStructure(e)) => assert_eq!(e.history, vec!["missing"]),
        other => panic!("unexpected {:?}", other),
    }
    assert_eq!(calls, 0);
}

#[test]
fn request_carries_uri_method_and_headers() {
    let ctx = TranslateContext::noop();
    let step = CryptogramStep::build("catalog", "lookup")
        .payload(obj(vec![("ids", Json::Array(vec![]))]))
        .headers(vec![(String::from("Cookie"), String::from("a=b"))])
        .finish();
    let mut ev = Evaluation::start(Cryptogram { current: 0, steps: vec![step] }).unwrap();
    let cache = MemoizationCache::new();
    match ev.advance(&ctx, &cache, &catalog(), &mut make_state(), 0).unwrap() {
        Progress::Request(req) => {
            assert_eq!(req.uri, "http://catalog.local/product_variants/");
            assert_eq!(req.method, HttpMethod::Post);
            assert_eq!(req.body, obj(vec![("ids", Json::Array(vec![]))]));
            assert_eq!(req.headers, vec![(String::from("Cookie"), String::from("a=b"))]);
        }
        other => panic!("unexpected {:?}", other),
    }
    assert!(ev.awaiting_response());
    assert!(!ev.can_advance());
}

#[test]
fn edge_route_body_primes_first_step() {
    let ctx = TranslateContext::noop();
    let first = CryptogramStep::build("catalog", "search")
        .payload(Json::Null)
        .preflight(parse(r#"{ "q": .query }"#).unwrap())
        .finish();
    let mut c = Cryptogram { current: 0, steps: vec![first] };
    let body = obj(vec![("query", text("boots"))]);
    let mut state = make_state();
    prime_first_step(&ctx, &mut c, &body, &mut state).unwrap();
    assert_eq!(c.steps[0].payload, Some(obj(vec![("q", text("boots"))])));
    assert!(c.steps[0].preflight.is_none());

    let plain = CryptogramStep::inert().payload(Json::Null).finish();
    let mut c = Cryptogram { current: 0, steps: vec![plain] };
    prime_first_step(&ctx, &mut c, &body, &mut state).unwrap();
    assert_eq!(c.steps[0].payload, Some(body));

    let failing = CryptogramStep::inert().payload(Json::Null).preflight(Language::at("nope")).finish();
    let mut c = Cryptogram { current: 0, steps: vec![failing] };
    assert!(matches!(
        prime_first_step(&ctx, &mut c, &Json::Null, &mut state),
        Err(EvaluateError::InvalidStructure(_))
    ));
}
