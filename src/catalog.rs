use vstd::prelude::*;
use crate::cryptogram::{Cryptogram, CryptogramStep};
use crate::events::{EventTopic, EventType};
use crate::headers::Features;
use vstd::utf8::encode_utf8;
use crate::json::{lemma_view_entries, lemma_view_items, view_entries, Json, JsonModel};
use crate::text::{chars_of, push_char, same_text};
use crate::translate::{last_index, lemma_last_index, obj_get, Expr, Language};

verus! {

/// The value of a string of ASCII digits.
pub open spec fn digits_value(s: Seq<char>) -> int
    decreases s.len(),
{
    if s.len() == 0 {
        0
    } else {
        digits_value(s.drop_last()) * 10 + (s[s.len() - 1] as int - '0' as int)
    }
}

pub open spec fn all_digits(s: Seq<char>) -> bool {
    forall|i: int| 0 <= i < s.len() ==> '0' <= #[trigger] s[i] && s[i] <= '9'
}

/// The `i32` that a text writes: an optional sign, then one or more digits.
pub open spec fn decimal_i32(s: Seq<char>) -> Option<i32> {
    let neg = s.len() > 0 && s[0] == '-';
    let body = if s.len() > 0 && (s[0] == '-' || s[0] == '+') {
        s.drop_first()
    } else {
        s
    };
    let v = if neg {
        -digits_value(body)
    } else {
        digits_value(body)
    };
    if body.len() > 0 && all_digits(body) && i32::MIN <= v <= i32::MAX {
        Some(v as i32)
    } else {
        None
    }
}

/// Relies on `i32::from_str`: it accepts an optional `+` or `-` and one or
/// more ASCII digits whose value fits in an `i32`, and nothing else.
#[verifier::external_body]
fn parse_i32(s: &str) -> (r: Option<i32>)
    ensures
        r == decimal_i32(s@),
{
    s.parse::<i32>().ok()
}

/// The parts of `s` around its first two colons.
pub open spec fn split3(s: Seq<char>) -> Seq<Seq<char>> {
    let a = first_colon(s, 0);
    if a < 0 {
        seq![s]
    } else {
        let b = first_colon(s, a + 1);
        if b < 0 {
            seq![s.subrange(0, a), s.subrange(a + 1, s.len() as int)]
        } else {
            seq![s.subrange(0, a), s.subrange(a + 1, b), s.subrange(b + 1, s.len() as int)]
        }
    }
}

/// The position of the first `:` at or after `p`, or -1.
pub open spec fn first_colon(s: Seq<char>, p: int) -> int
    decreases s.len() - p,
{
    if p < 0 || p >= s.len() {
        -1
    } else if s[p] == ':' {
        p
    } else {
        first_colon(s, p + 1)
    }
}

/// Why a page token was refused.
#[derive(Debug, PartialEq, Eq, Structural)]
pub enum ExploreError {
    InvalidPage,
}

/// What a page token asks for: where to start, and the bucket to resume,
/// if any. A bare number counts from one; `catalog:N` and `catalog:N:bucket`
/// count from zero; any other shape starts at zero.
pub open spec fn page_of(start: Seq<char>) -> Result<(int, Option<Seq<char>>), ExploreError> {
    let parts = split3(start);
    if parts.len() == 1 {
        match decimal_i32(parts[0]) {
            Some(n) => Ok((n - 1, None)),
            None => Err(ExploreError::InvalidPage),
        }
    } else if parts[0] == "catalog"@ {
        match decimal_i32(parts[1]) {
            Some(n) => Ok((n as int, if parts.len() == 3 { Some(parts[2]) } else { None })),
            None => Err(ExploreError::InvalidPage),
        }
    } else {
        Ok((0, None))
    }
}

fn find_colon(s: &Vec<char>, p: usize) -> (r: Option<usize>)
    requires
        p <= s.len(),
    ensures
        match r {
            Some(i) => first_colon(s@, p as int) == i && p <= i < s.len(),
            None => first_colon(s@, p as int) == -1,
        },
{
    let mut i = p;
    while i < s.len()
        invariant
            p <= i <= s.len(),
            first_colon(s@, i as int) == first_colon(s@, p as int),
        decreases s.len() - i,
    {
        if s[i] == ':' {
            return Some(i);
        }
        i = i + 1;
    }
    None
}

fn slice_text(s: &Vec<char>, from: usize, to: usize) -> (r: String)
    requires
        from <= to <= s.len(),
    ensures
        r@ == s@.subrange(from as int, to as int),
{
    let mut out = String::new();
    let mut i = from;
    while i < to
        invariant
            from <= i <= to <= s.len(),
            out@ == s@.subrange(from as int, i as int),
        decreases to - i,
    {
        push_char(&mut out, s[i]);
        assert(s@.subrange(from as int, i + 1) =~= s@.subrange(from as int, i as int).push(s@[i as int]));
        i = i + 1;
    }
    out
}

/// Reads a page token; without one the first page is meant.
pub fn explore_page(start: Option<&str>) -> (r: Result<(i64, Option<String>), ExploreError>)
    ensures
        match start {
            None => r == Ok::<(i64, Option<String>), ExploreError>((0, None)),
            Some(t) => match page_of(t@) {
                Ok((n, b)) => r matches Ok((m, c)) && m == n && crate::cryptogram::opt_text(c) == b,
                Err(e) => r == Err::<(i64, Option<String>), ExploreError>(e),
            },
        },
{
    let t = match start {
        Some(t) => t,
        None => {
            return Ok((0, None));
        },
    };
    let s = chars_of(t);
    let first = find_colon(&s, 0);
    match first {
        None => {
            assert(split3(s@) == seq![s@]);
            match parse_i32(t) {
                Some(n) => Ok((n as i64 - 1, None)),
                None => Err(ExploreError::InvalidPage),
            }
        },
        Some(a) => {
            let head = slice_text(&s, 0, a);
            let second = find_colon(&s, a + 1);
            let (num, bucket) = match second {
                None => (slice_text(&s, a + 1, s.len()), None),
                Some(b) => (slice_text(&s, a + 1, b), Some(slice_text(&s, b + 1, s.len()))),
            };
            if !same_text(head.as_str(), "catalog") {
                return Ok((0, None));
            }
            match parse_i32(num.as_str()) {
                Some(n) => Ok((n as i64, bucket)),
                None => Err(ExploreError::InvalidPage),
            }
        },
    }
}

/// Whether the explore page is served from recommendations: the first page,
/// with no query, for a known owner who asked for them.
pub fn recommendations_flow(start: i64, has_query: bool, has_owner: bool, features: &Features) -> (r: bool)
    ensures
        r == (start == 0 && !has_query && has_owner && features.recommendations),
{
    start == 0 && !has_query && has_owner && features.recommendations
}

/// The catalog offset of an explore page: one less where recommendations
/// fill the first slot.
pub fn catalog_start(start: i64, has_owner: bool, features: &Features) -> (r: i64)
    requires
        start > i64::MIN,
    ensures
        r == (if has_owner && features.recommendations { start - 1 } else { start as int }),
{
    if has_owner && features.recommendations {
        start - 1
    } else {
        start
    }
}

/// The values of the `id` parameters of a query, in order.
pub open spec fn ids_in(pairs: Seq<(Seq<char>, Seq<char>)>) -> Seq<Seq<char>>
    decreases pairs.len(),
{
    if pairs.len() == 0 {
        Seq::empty()
    } else {
        let rest = ids_in(pairs.drop_last());
        let last = pairs[pairs.len() - 1];
        if last.0 == "id"@ {
            rest.push(last.1)
        } else {
            rest
        }
    }
}

/// The values of the `id` parameters among the query's pairs, in order.
pub fn ids_from_query(pairs: &Vec<(String, String)>) -> (r: Vec<String>)
    ensures
        Seq::new(r.len() as nat, |i: int| r@[i]@) == ids_in(
            Seq::new(pairs.len() as nat, |i: int| (pairs@[i].0@, pairs@[i].1@)),
        ),
{
    let ghost m = Seq::new(pairs.len() as nat, |i: int| (pairs@[i].0@, pairs@[i].1@));
    let mut out: Vec<String> = Vec::new();
    let mut i: usize = 0;
    assert(m.subrange(0, 0) =~= Seq::<(Seq<char>, Seq<char>)>::empty());
    while i < pairs.len()
        invariant
            i <= pairs.len(),
            m == Seq::new(pairs.len() as nat, |i: int| (pairs@[i].0@, pairs@[i].1@)),
            Seq::new(out.len() as nat, |j: int| out@[j]@) == ids_in(m.subrange(0, i as int)),
        decreases pairs.len() - i,
    {
        let ghost before = Seq::new(out.len() as nat, |j: int| out@[j]@);
        assert(m.subrange(0, i + 1).drop_last() =~= m.subrange(0, i as int));
        if same_text(pairs[i].0.as_str(), "id") {
            out.push(pairs[i].1.clone());
            assert(Seq::new(out.len() as nat, |j: int| out@[j]@) =~= before.push(pairs@[i as int].1@));
        } else {
            assert(Seq::new(out.len() as nat, |j: int| out@[j]@) =~= before);
        }
        i = i + 1;
    }
    assert(m.subrange(0, pairs.len() as int) =~= m);
    out
}

/// The `primary_image` text of the first of a result's `results`.
pub open spec fn primary_image_of(v: JsonModel) -> Option<Seq<char>> {
    match v {
        JsonModel::Object(es) => match obj_get(es, "results"@) {
            Some(JsonModel::Array(items)) => if items.len() > 0 {
                match items[0] {
                    JsonModel::Object(fs) => match obj_get(fs, "primary_image"@) {
                        Some(JsonModel::String(s)) => Some(s),
                        _ => None,
                    },
                    _ => None,
                }
            } else {
                None
            },
            _ => None,
        },
        _ => None,
    }
}

/// The value filed under `k` in an object's entries.
fn field<'a>(entries: &'a Vec<(String, Json)>, k: &str) -> (r: Option<&'a Json>)
    ensures
        match obj_get(view_entries(entries@), k@) {
            Some(v) => r matches Some(x) && x@ == v,
            None => r is None,
        },
{
    proof {
        lemma_view_entries(entries@);
        lemma_last_index(view_entries(entries@), k@);
    }
    let mut i = entries.len();
    while i > 0
        invariant
            i <= entries.len(),
            view_entries(entries@).len() == entries.len(),
            forall|j: int|
                0 <= j < entries.len() ==> #[trigger] view_entries(entries@)[j] == (
                    entries@[j].0@,
                    entries@[j].1@,
                ),
            -1 <= last_index(view_entries(entries@), k@) < entries.len(),
            last_index(view_entries(entries@), k@) >= 0 ==> view_entries(entries@)[last_index(
                view_entries(entries@),
                k@,
            )].0 == k@,
            forall|j: int|
                last_index(view_entries(entries@), k@) < j < entries.len() ==> #[trigger] view_entries(
                    entries@,
                )[j].0 != k@,
            forall|j: int| i <= j < entries.len() ==> #[trigger] entries@[j].0@ != k@,
        decreases i,
    {
        if same_text(entries[i - 1].0.as_str(), k) {
            let ghost li = last_index(view_entries(entries@), k@);
            assert(li == i - 1) by {
                assert(view_entries(entries@)[i - 1] == (entries@[i - 1].0@, entries@[i - 1].1@));
                assert(view_entries(entries@)[i - 1].0 == k@);
                if li > i - 1 {
                    assert(view_entries(entries@)[li] == (entries@[li].0@, entries@[li].1@));
                }
            }
            return Some(&entries[i - 1].1);
        }
        i = i - 1;
    }
    None
}

/// The address of a product's primary image in a lookup result.
pub fn primary_image(result: &Json) -> (r: Option<String>)
    ensures
        crate::cryptogram::opt_text(r) == primary_image_of(result@),
{
    match result {
        Json::Object(es) => match field(es, "results") {
            Some(Json::Array(items)) => {
                proof {
                    lemma_view_items(items@);
                }
                if items.len() > 0 {
                    match &items[0] {
                        Json::Object(fs) => match field(fs, "primary_image") {
                            Some(Json::String(s)) => Some(s.clone()),
                            _ => None,
                        },
                        _ => None,
                    }
                } else {
                    None
                }
            },
            _ => None,
        },
        _ => None,
    }
}

/// A one-step cryptogram that looks product variants up by id and hands
/// back `{ "results": <product_variants> }`.
pub fn product_lookup(ids: Vec<String>) -> (r: Cryptogram)
    ensures
        r.current == 0,
        r.steps.len() == 1,
        r.steps@[0]@.service == Some("catalog"@),
        r.steps@[0]@.method == Some("lookup"@),
        r.steps@[0]@.postflight == Some(
            Expr::Object(seq![("results"@, Expr::At("product_variants"@))]),
        ),
        r.steps@[0]@.payload == Some(
            JsonModel::Object(
                seq![
                    (
                        "product_variant_ids"@,
                        JsonModel::Array(Seq::new(ids.len() as nat, |i: int| JsonModel::String(ids@[i]@))),
                    ),
                ],
            ),
        ),
{
    let mut id_values: Vec<Json> = Vec::new();
    let mut i: usize = 0;
    while i < ids.len()
        invariant
            i <= ids.len(),
            id_values.len() == i,
            forall|j: int| 0 <= j < i ==> #[trigger] id_values@[j]@ == JsonModel::String(ids@[j]@),
        decreases ids.len() - i,
    {
        id_values.push(Json::String(ids[i].clone()));
        i = i + 1;
    }
    proof {
        lemma_view_items(id_values@);
    }
    assert(crate::json::view_items(id_values@) =~= Seq::new(
        ids.len() as nat,
        |i: int| JsonModel::String(ids@[i]@),
    ));
    let payload = one_field("product_variant_ids", Json::Array(id_values));
    let at = Language::at("product_variants");
    let mut pairs: Vec<(String, Language)> = Vec::new();
    pairs.push(("results".to_owned(), at));
    proof {
        crate::translate::lemma_view_pairs(pairs@);
    }
    let post = Language::Object(pairs);
    assert(post@ == Expr::Object(seq![("results"@, Expr::At("product_variants"@))])) by {
        assert(crate::translate::view_pairs(pairs@) =~= seq![("results"@, Expr::At("product_variants"@))]);
    }
    let step = CryptogramStep::build("catalog", "lookup").payload(payload).postflight(post).finish();
    Cryptogram { current: 0, steps: vec![step] }
}

/// Whether a byte stays as it is in a cookie value: ASCII letters and
/// digits, `.` and `-`.
pub open spec fn cookie_safe(b: u8) -> bool {
    (48 <= b <= 57) || (65 <= b <= 90) || (97 <= b <= 122) || b == 46 || b == 45
}

pub open spec fn hex_upper(d: u8) -> char {
    if d < 10 {
        ((48 + d) as u8) as char
    } else {
        ((55 + d) as u8) as char
    }
}

/// Bytes written for a cookie: safe bytes as they are, the others as `%XX`
/// in upper-case hexadecimal.
pub open spec fn percent_encoded(bytes: Seq<u8>) -> Seq<char>
    decreases bytes.len(),
{
    if bytes.len() == 0 {
        Seq::empty()
    } else {
        let b = bytes[bytes.len() - 1];
        percent_encoded(bytes.drop_last()) + if cookie_safe(b) {
            seq![b as char]
        } else {
            seq!['%', hex_upper(b / 16), hex_upper(b % 16)]
        }
    }
}

/// Relies on percent_encoding's `percent_encode_byte`: the byte as `%`
/// and two upper-case hexadecimal digits.
#[verifier::external_body]
fn percent_byte(b: u8) -> (r: &'static str)
    ensures
        r@ == seq!['%', hex_upper(b / 16), hex_upper(b % 16)],
{
    percent_encoding::percent_encode_byte(b)
}

/// The UTF-8 bytes of `s` written for a cookie.
fn escape_cookie(s: &str) -> (r: String)
    ensures
        r@ == percent_encoded(encode_utf8(s@)),
{
    let bytes = s.as_bytes();
    let mut out = String::new();
    let mut i: usize = 0;
    assert(bytes@.subrange(0, 0) =~= Seq::<u8>::empty());
    while i < bytes.len()
        invariant
            i <= bytes.len(),
            bytes@ == encode_utf8(s@),
            out@ == percent_encoded(bytes@.subrange(0, i as int)),
        decreases bytes.len() - i,
    {
        let b = bytes[i];
        assert(bytes@.subrange(0, i + 1).drop_last() =~= bytes@.subrange(0, i as int));
        if (48 <= b && b <= 57) || (65 <= b && b <= 90) || (97 <= b && b <= 122) || b == 46 || b == 45 {
            push_char(&mut out, b as char);
        } else {
            crate::text::push_str(&mut out, percent_byte(b));
        }
        i = i + 1;
    }
    assert(bytes@.subrange(0, bytes.len() as int) =~= bytes@);
    out
}

/// The query of an explore page, as the front end reads it.
#[derive(Debug)]
pub struct ExploreRequest {
    pub q: Option<String>,
    pub size: Option<i32>,
    pub start: Option<String>,
    pub search_id: Option<u128>,
}

/// The text of the identity service's query for the current user.
pub const CURRENT_USER_QUERY: &'static str = "query CurrentUser($sort: WalletItemsSortTypeInput) { currentUser { __typename ... on CurrentUser { id fullName username primaryEmailAddress avatarImage { url __typename } socialAccounts { instagram twitter tiktok __typename } userSettings { welcomeExperienceShown __typename } __typename recommendationSeedPhrase wallets { id, numVerifiedWalletItems, items(limit: 100, offset: 0, sort: $sort) { totalCount, paginated { __typename, id, createdAt, protectionState, type, image(adjustments: null) { url width height lqip(strategy: pixelate) { url width height strategy } } moderationFlag, ... on UnidentifiedWalletItem { unidentifiedBrandName } ... on IdentifiedWalletItem { product { currentResalePrice { amount, currency }, currentRetailPrice { amount, currency }, brand { name } } } } } total } } } }";

fn text(s: &str) -> (r: Json)
    ensures
        r@ == JsonModel::String(s@),
{
    Json::String(s.to_owned())
}

fn int_json(n: i64) -> (r: Json) {
    if n < 0 {
        Json::Number(crate::json::Number::NegInt(n))
    } else {
        Json::Number(crate::json::Number::PosInt(n as u64))
    }
}

fn opt_text_json(s: &Option<String>) -> (r: Json)
    ensures
        r@ == text_or_null(*s),
{
    match s {
        Some(v) => Json::String(v.clone()),
        None => Json::Null,
    }
}

fn one_field(k: &str, v: Json) -> (r: Json)
    ensures
        r@ == JsonModel::Object(seq![(k@, v@)]),
{
    let mut es: Vec<(String, Json)> = Vec::new();
    add_field(&mut es, k, v);
    assert(view_entries(es@) =~= seq![(k@, v@)]);
    Json::Object(es)
}

fn add_field(es: &mut Vec<(String, Json)>, k: &str, v: Json)
    ensures
        view_entries(final(es)@) == view_entries(old(es)@).push((k@, v@)),
{
    let ghost before = es@;
    es.push((k.to_owned(), v));
    assert(es@.drop_last() =~= before);
}

/// A text as JSON, or null.
pub open spec fn text_or_null(s: Option<String>) -> JsonModel {
    match s {
        Some(v) => JsonModel::String(v@),
        None => JsonModel::Null,
    }
}

fn field_expr(k: &str, e: Language) -> (r: (String, Language)) {
    (k.to_owned(), e)
}

fn emit(owner: &Option<String>, topic: &EventTopic, et: EventType, search_id: u128, page: &Json) -> (r: Language) {
    let owner_id = match owner {
        Some(o) => Some(o.clone()),
        None => None,
    };
    Language::EmitEvent(owner_id, topic.duplicate(), et, search_id, page.deep_clone())
}

fn owner_prefix(owner: &String) -> (r: String)
    ensures
        r@ == owner@.push('-'),
{
    let mut p = owner.clone();
    push_char(&mut p, '-');
    p
}

/// The steps that fill an explore page from recommendations: the owner's seed
/// phrase from the identity service, then the catalog's pick for it.
fn recommendation_sources(owner: &String, raw_value: &Option<String>) -> (r: Vec<CryptogramStep>)
    ensures
        r.len() == 2,
        r@[0]@.service == Some("identity"@),
        r@[0]@.method == Some("lookup"@),
        r@[0]@.memoization_prefix == Some(owner@.push('-')),
        r@[1]@.service == Some("catalog"@),
        r@[1]@.method == Some("explore"@),
        r@[1]@.memoization_prefix == Some(owner@.push('-')),
{
    let payload = Json::Object(vec![
        ("query".to_owned(), text(CURRENT_USER_QUERY)),
        ("variables".to_owned(), Json::Object(Vec::new())),
    ]);
    let mut headers: Vec<(String, String)> = Vec::new();
    match raw_value {
        Some(cookie) => {
            let mut value = "appreciate-auth=".to_owned();
            crate::text::push_str(&mut value, escape_cookie(cookie.as_str()).as_str());
            headers.push(("Cookie".to_owned(), value));
        },
        None => {},
    }
    let seed = Language::at("data").map(Language::at("currentUser").map(
        Language::at("recommendationSeedPhrase"),
    )).map(Language::default(Language::Const(Json::Array(Vec::new())))).map(
        Language::Join(" ".to_owned()),
    );
    let identity = CryptogramStep::build("identity", "lookup").payload(payload).postflight(
        Language::Object(
            vec![
                field_expr("q", seed),
                field_expr("size", Language::Const(Json::Number(crate::json::Number::PosInt(6)))),
                field_expr("start", Language::Const(Json::Number(crate::json::Number::PosInt(0)))),
            ],
        ),
    ).headers(headers).memoization_prefix(owner_prefix(owner)).finish();
    let explore = CryptogramStep::build("catalog", "explore").payload(Json::Object(Vec::new())).postflight(
        Language::Object(vec![field_expr("product_variant_ids", Language::at("product_variant_ids"))]),
    ).memoization_prefix(owner_prefix(owner)).finish();
    let mut r: Vec<CryptogramStep> = Vec::new();
    r.push(identity);
    r.push(explore);
    r
}

/// The step that searches the catalog for an explore page, announcing the
/// search and its results as events and keeping the paging state.
fn catalog_source(
    q: &Option<String>,
    start: i64,
    bucket: &Option<String>,
    size: i32,
    owner: &Option<String>,
    topic: &EventTopic,
    search_id: u128,
    page: &Json,
) -> (r: CryptogramStep)
    ensures
        r@.service == Some("catalog"@),
        r@.method == Some("explore"@),
        r@.memoization_prefix is None,
        r@.preflight is Some,
        r@.postflight is Some,
{
    let payload = Json::Object(vec![
        ("q".to_owned(), opt_text_json(q)),
        ("start".to_owned(), int_json(start)),
        ("bucket_info".to_owned(), opt_text_json(bucket)),
        ("size".to_owned(), int_json(size as i64)),
    ]);
    let pre = Language::Splat(vec![
        Language::Object(vec![
            field_expr("query", Language::at("q")),
            field_expr("page_size", Language::at("size")),
        ]).map(emit(owner, topic, EventType::Search, search_id, page)),
        Language::Identity,
    ]);
    let post = Language::Splat(vec![
        Language::at("next_start").map(Language::set("next_start")),
        Language::at("has_more").map(Language::set("has_more")),
        Language::Object(vec![
            field_expr("product_variant_ids", Language::at("product_variant_ids")),
            field_expr("length", Language::at("product_variant_ids").map(Language::Length)),
        ]).map(emit(owner, topic, EventType::SearchResult, search_id, page)),
        Language::Object(vec![field_expr("product_variant_ids", Language::at("product_variant_ids"))]),
    ]);
    CryptogramStep::build("catalog", "explore").payload(payload).preflight(pre).postflight(post).finish()
}

/// The last step of an explore page: the products of the ids found, with
/// the paging fields `tail` after them.
fn explore_lookup(tail: Vec<(String, Language)>) -> (r: CryptogramStep)
    ensures
        r@.service == Some("catalog"@),
        r@.method == Some("lookup"@),
        r@.memoization_prefix is None,
{
    let mut fields = vec![
        field_expr("results", Language::at("product_variants")),
        field_expr(
            "data",
            Language::at("product_variants").map(
                Language::array(
                    Language::Object(
                        vec![
                            field_expr("brand_name", Language::at("brand_variant_name")),
                            field_expr("catalog_id", Language::at("id")),
                            field_expr("id", Language::at("id")),
                            field_expr("item_id", Language::at("id")),
                            field_expr("link", Language::at("primary_image")),
                            field_expr("title", Language::at("name")),
                        ],
                    ),
                ),
            ),
        ),
        field_expr("query_id", Language::Const(Json::Null)),
        field_expr("status", Language::Const(text("ok"))),
    ];
    let mut tail = tail;
    fields.append(&mut tail);
    CryptogramStep::build("catalog", "lookup").payload(
        one_field("product_variant_ids", Json::Array(Vec::new())),
    ).postflight(Language::Object(fields)).finish()
}

/// The cryptogram of an explore page. From recommendations, where
/// `recommendations_flow` holds: the identity service, the catalog's pick,
/// then the product lookup. Otherwise: a catalog search, then the lookup.
pub fn explore(
    req: &ExploreRequest,
    owner_id: &Option<String>,
    raw_value: &Option<String>,
    features: &Features,
    search_id: u128,
    topic: &EventTopic,
) -> (r: Result<Cryptogram, ExploreError>)
    ensures
        match req.start {
            Some(t) => page_of(t@) is Err ==> r == Err::<Cryptogram, ExploreError>(
                ExploreError::InvalidPage,
            ),
            None => true,
        },
        r matches Ok(c) ==> ({
            let n = c.steps.len();
            &&& c.current == 0
            &&& n >= 2
            &&& c.steps@[n - 1]@.service == Some("catalog"@)
            &&& c.steps@[n - 1]@.method == Some("lookup"@)
            &&& (n == 3) == (owner_id is Some && req.q is None && features.recommendations && match
                req.start {
                None => true,
                Some(t) => page_of(t@) matches Ok((s, _)) && s == 0,
            })
            &&& n == 3 ==> c.steps@[0]@.service == Some("identity"@) && c.steps@[0]@.memoization_prefix
                == Some(owner_id->0@.push('-'))
            &&& n == 2 ==> c.steps@[0]@.service == Some("catalog"@) && c.steps@[0]@.method == Some(
                "explore"@,
            )
        }),
{
    let (start, bucket) = match req.start {
        Some(ref t) => explore_page(Some(t.as_str()))?,
        None => explore_page(None)?,
    };
    let size: i32 = match req.size {
        Some(s) => s,
        None => 10,
    };
    let page = Json::Object(vec![
        ("owner_id".to_owned(), opt_text_json(owner_id)),
        ("features".to_owned(), one_field("recommendations", Json::Bool(features.recommendations))),
    ]);
    let flow = recommendations_flow(start, req.q.is_some(), owner_id.is_some(), features);
    if flow {
        let owner = match owner_id {
            Some(o) => o,
            None => {
                return Err(ExploreError::InvalidPage);
            },
        };
        let mut steps = recommendation_sources(owner, raw_value);
        let mut next = "catalog:".to_owned();
        crate::text::push_digits(&mut next, if size < 0 { 0 } else { size as u64 }, 10);
        let tail = vec![
            field_expr("next_start", Language::Const(Json::String(next))),
            field_expr("has_more", Language::Const(Json::Bool(true))),
        ];
        steps.push(explore_lookup(tail));
        Ok(Cryptogram { current: 0, steps })
    } else {
        if start == i64::MIN {
            return Err(ExploreError::InvalidPage);
        }
        let new_start = catalog_start(start, owner_id.is_some(), features);
        let source = catalog_source(&req.q, new_start, &bucket, size, owner_id, topic, search_id, &page);
        let tail = vec![
            field_expr("next_start", Language::get("next_start")),
            field_expr("has_more", Language::get("has_more")),
        ];
        let mut steps: Vec<CryptogramStep> = Vec::new();
        steps.push(source);
        steps.push(explore_lookup(tail));
        Ok(Cryptogram { current: 0, steps })
    }
}

/// A one-step cryptogram that asks the catalog for completions of `q`.
pub fn suggestions(q: String) -> (r: Cryptogram)
    ensures
        r.current == 0,
        r.steps.len() == 1,
        r.steps@[0]@.service == Some("catalog"@),
        r.steps@[0]@.method == Some("autocomplete"@),
        r.steps@[0]@.payload == Some(JsonModel::Object(seq![("q"@, JsonModel::String(q@))])),
        r.steps@[0]@.postflight is None,
{
    let ghost qm = q@;
    let mut es: Vec<(String, Json)> = Vec::new();
    es.push(("q".to_owned(), Json::String(q)));
    proof {
        lemma_view_entries(es@);
    }
    let payload = Json::Object(es);
    assert(payload@ == JsonModel::Object(seq![("q"@, JsonModel::String(qm))])) by {
        assert(view_entries(es@) =~= seq![("q"@, JsonModel::String(qm))]);
    }
    let step = CryptogramStep::build("catalog", "autocomplete").payload(payload).finish();
    Cryptogram { current: 0, steps: vec![step] }
}

/// A one-step cryptogram that asks for an owner's search history.
pub fn search_history(owner_id: Option<String>) -> (r: Cryptogram)
    ensures
        r.current == 0,
        r.steps.len() == 1,
        r.steps@[0]@.service == Some("apex"@),
        r.steps@[0]@.method == Some("search_history"@),
        r.steps@[0]@.payload == Some(JsonModel::Object(seq![("owner_id"@, text_or_null(owner_id))])),
        r.steps@[0]@.preflight is None,
        r.steps@[0]@.postflight is None,
{
    let payload = one_field("owner_id", opt_text_json(&owner_id));
    let step = CryptogramStep::build("apex", "search_history").payload(payload).finish();
    Cryptogram { current: 0, steps: vec![step] }
}

/// A one-step cryptogram that asks the pricing service for a resale price.
pub fn resale_price(brand: String, image_url: String, q: String, product_variant_id: Option<String>) -> (r: Cryptogram)
    ensures
        r.current == 0,
        r.steps.len() == 1,
        r.steps@[0]@.service == Some("pricing"@),
        r.steps@[0]@.method == Some("lookup"@),
        r.steps@[0]@.payload == Some(
            JsonModel::Object(
                seq![
                    ("brand"@, JsonModel::String(brand@)),
                    ("image_url"@, JsonModel::String(image_url@)),
                    ("q"@, JsonModel::String(q@)),
                    ("product_variant_id"@, text_or_null(product_variant_id)),
                ],
            ),
        ),
        r.steps@[0]@.preflight is None,
        r.steps@[0]@.postflight is None,
{
    let ghost expected = seq![
        ("brand"@, JsonModel::String(brand@)),
        ("image_url"@, JsonModel::String(image_url@)),
        ("q"@, JsonModel::String(q@)),
        ("product_variant_id"@, text_or_null(product_variant_id)),
    ];
    let pv = opt_text_json(&product_variant_id);
    let mut es: Vec<(String, Json)> = Vec::new();
    add_field(&mut es, "brand", Json::String(brand));
    add_field(&mut es, "image_url", Json::String(image_url));
    add_field(&mut es, "q", Json::String(q));
    add_field(&mut es, "product_variant_id", pv);
    assert(view_entries(es@) =~= expected);
    let payload = Json::Object(es);
    let step = CryptogramStep::build("pricing", "lookup").payload(payload).finish();
    Cryptogram { current: 0, steps: vec![step] }
}

} // verus!
