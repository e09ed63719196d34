use delegator_core::events::{EventClient, EventTopic, EventType};
use delegator_core::json::{Json, Number};
use std::sync::Arc;
use delegator_core::translate::{make_state, step, Language, StepError, TranslateContext};

fn text(x: &str) -> Json {
    Json::String(x.to_string())
}

fn obj(pairs: Vec<(&str, Json)>) -> Json {
    Json::Object(pairs.into_iter().map(|(k, v)| (k.to_string(), v)).collect())
}

fn num(n: u64) -> Json {
    Json::Number(Number::PosInt(n))
}

#[test]
fn translate_error_at() {
    let ctx = TranslateContext::noop();
    let prog = Language::at("foo");

    let given = obj(vec![("bar", text("baz"))]);
    if let Some(StepError { choices: _, history }) = step(&ctx, &prog, &given, &mut make_state()).err() {
        assert_eq!(history, vec!["foo"]);
    }
}

#[test]
fn translate_error_array() {
    let ctx = TranslateContext::noop();
    let prog = Language::array(Language::at("foo"));

    let given = Json::Array(vec![obj(vec![("bar", text("baz"))])]);
    if let Some(StepError { choices: _, history }) = step(&ctx, &prog, &given, &mut make_state()).err() {
        assert_eq!(history, vec!["[0]", "foo"]);
    }
}

#[test]
fn translate_error_focus() {
    let ctx = TranslateContext::noop();
    let prog = Language::at("foo").map(Language::at("bar"));

    let given = obj(vec![("baz", text("blix"))]);
    if let Some(StepError { choices: _, history }) = step(&ctx, &prog, &given, &mut make_state()).err() {
        assert_eq!(history, vec!["foo"]);
    }
}

#[test]
fn translate_error_object() {
    let ctx = TranslateContext::noop();
    let prog = Language::Object(vec![
        (String::from("foo"), Language::at("foo")),
        (String::from("bar"), Language::at("bar")),
    ]);

    let given = obj(vec![("foo", text("foo"))]);
    // The field's key comes first, then the failing projection's own key.
    if let Some(StepError { choices: _, history }) = step(&ctx, &prog, &given, &mut make_state()).err() {
        assert_eq!(history, vec!["bar", "bar"]);
    }
}

#[test]
fn translate_test() {
    let ctx = TranslateContext::noop();
    let prog = Language::at("results").map(Language::Object(vec![(
        String::from("ids"),
        Language::array(Language::at("product_variant_id")),
    )]));

    let given = obj(vec![
        ("q", text("Foo")),
        (
            "results",
            Json::Array(vec![obj(vec![(
                "product_variant_id",
                text("12313bb7-6068-4ec9-ac49-3e834181f127"),
            )])]),
        ),
    ]);
    let expected = obj(vec![(
        "ids",
        Json::Array(vec![text("12313bb7-6068-4ec9-ac49-3e834181f127")]),
    )]);

    assert_eq!(step(&ctx, &prog, &given, &mut make_state()).unwrap(), expected);
}

#[test]
fn missing_key_lists_the_choices() {
    let ctx = TranslateContext::noop();
    let given = obj(vec![("a", num(1)), ("b", num(2))]);
    let err = step(&ctx, &Language::at("c"), &given, &mut make_state()).unwrap_err();
    assert_eq!(err.history, vec!["c"]);
    assert_eq!(err.choices, Some(Json::Array(vec![text("a"), text("b")])));
}

#[test]
fn breadcrumb_through_array_and_object() {
    let ctx = TranslateContext::noop();
    let prog = Language::Object(vec![(
        String::from("out"),
        Language::at("items").map(Language::array(Language::at("id"))),
    )]);
    let given = obj(vec![(
        "items",
        Json::Array(vec![obj(vec![("id", num(1))]), obj(vec![("id", num(2))]), obj(vec![])]),
    )]);
    let err = step(&ctx, &prog, &given, &mut make_state()).unwrap_err();
    assert_eq!(err.history, vec!["out", "[2]", "id"]);
}

#[test]
fn identity_returns_the_input() {
    let ctx = TranslateContext::noop();
    let given = obj(vec![("a", Json::Array(vec![num(1), Json::Null]))]);
    assert_eq!(step(&ctx, &Language::Identity, &given, &mut make_state()).unwrap(), given);
}

#[test]
fn pipe_is_associative() {
    let ctx = TranslateContext::noop();
    let given = obj(vec![("a", obj(vec![("b", obj(vec![("c", num(7))]))]))]);
    let left = Language::at("a").map(Language::at("b")).map(Language::at("c"));
    let right = Language::at("a").map(Language::at("b").map(Language::at("c")));
    let l = step(&ctx, &left, &given, &mut make_state()).unwrap();
    let r = step(&ctx, &right, &given, &mut make_state()).unwrap();
    assert_eq!(l, num(7));
    assert_eq!(l, r);
}

#[test]
fn const_absorbs_what_came_before() {
    let ctx = TranslateContext::noop();
    let given = obj(vec![("a", num(1))]);
    let prog = Language::at("a").map(Language::Const(text("k")));
    assert_eq!(step(&ctx, &prog, &given, &mut make_state()).unwrap(), text("k"));
}

#[test]
fn set_then_get_round_trips() {
    let ctx = TranslateContext::noop();
    let given = Json::Array(vec![num(3), text("x")]);
    let prog = Language::Splat(vec![Language::set("x"), Language::get("x")]);
    assert_eq!(step(&ctx, &prog, &given, &mut make_state()).unwrap(), given);
}

#[test]
fn repeated_runs_agree() {
    let ctx = TranslateContext::noop();
    let given = obj(vec![("a", Json::Array(vec![num(1), num(2)]))]);
    let prog = Language::Splat(vec![
        Language::at("a").map(Language::set("kept")),
        Language::Object(vec![(String::from("n"), Language::at("a").map(Language::Length))]),
    ]);
    let first = step(&ctx, &prog, &given, &mut make_state()).unwrap();
    let second = step(&ctx, &prog, &given, &mut make_state()).unwrap();
    assert_eq!(first, obj(vec![("n", num(2))]));
    assert_eq!(first, second);
}

#[test]
fn get_of_a_missing_name_fails() {
    let ctx = TranslateContext::noop();
    let err = step(&ctx, &Language::get("nope"), &Json::Null, &mut make_state()).unwrap_err();
    assert_eq!(err.history, vec!["Get(nope)"]);
}

#[test]
fn length_join_default_flatten() {
    let ctx = TranslateContext::noop();
    let arr = Json::Array(vec![text("a"), num(1), text("b")]);
    assert_eq!(step(&ctx, &Language::Length, &arr, &mut make_state()).unwrap(), num(3));
    assert_eq!(step(&ctx, &Language::Length, &text("s"), &mut make_state()).unwrap(), Json::Null);
    assert_eq!(
        step(&ctx, &Language::Join(String::from(" ")), &arr, &mut make_state()).unwrap(),
        text("a b")
    );
    let err = step(&ctx, &Language::Join(String::from(",")), &num(1), &mut make_state()).unwrap_err();
    assert!(err.history.is_empty());
    let dflt = Language::default(Language::Const(Json::Array(vec![])));
    assert_eq!(step(&ctx, &dflt, &Json::Null, &mut make_state()).unwrap(), Json::Array(vec![]));
    assert_eq!(step(&ctx, &dflt, &num(5), &mut make_state()).unwrap(), num(5));
    let nested = Json::Array(vec![Json::Array(vec![num(1)]), Json::Array(vec![num(2), num(3)])]);
    assert_eq!(
        step(&ctx, &Language::Flatten, &nested, &mut make_state()).unwrap(),
        Json::Array(vec![num(1), num(2), num(3)])
    );
    let err = step(&ctx, &Language::Flatten, &Json::Array(vec![num(1)]), &mut make_state()).unwrap_err();
    assert_eq!(err.history, vec!["flatten"]);
}

#[test]
fn object_keeps_the_last_of_repeated_keys() {
    let ctx = TranslateContext::noop();
    let prog = Language::Object(vec![
        (String::from("k"), Language::Const(num(1))),
        (String::from("j"), Language::Const(num(2))),
        (String::from("k"), Language::Const(num(3))),
    ]);
    assert_eq!(
        step(&ctx, &prog, &Json::Null, &mut make_state()).unwrap(),
        obj(vec![("k", num(3)), ("j", num(2))])
    );
}

#[test]
fn emitted_events_are_recorded_in_order() {
    let topic = || EventTopic { queue_url: String::from("queue://actions") };
    let prog = Language::Splat(vec![
        Language::EmitEvent(None, topic(), EventType::Search, 7, Json::Null),
        Language::at("a").map(Language::EmitEvent(
            Some(String::from("o1")),
            topic(),
            EventType::SearchResult,
            7,
            Json::Null,
        )),
    ]);
    let given = obj(vec![("a", num(1))]);
    let mut state = make_state();
    let on = TranslateContext::build(Arc::new(EventClient::new()));
    assert_eq!(step(&on, &prog, &given, &mut state).unwrap(), num(1));
    let events = state.events();
    assert_eq!(events.len(), 2);
    assert_eq!(events[0].event_type, EventType::Search);
    assert_eq!(events[0].payload, given);
    assert_eq!(events[1].owner_id, Some(String::from("o1")));
    assert_eq!(events[1].payload, num(1));

    let mut quiet = make_state();
    step(&TranslateContext::noop(), &prog, &given, &mut quiet).unwrap();
    assert!(quiet.events().is_empty());
}
