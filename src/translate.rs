use vstd::prelude::*;
use std::sync::Arc;
use crate::events::{opt_str, Event, EventClient, EventModel, EventTopic, EventType};
use crate::json::{
    lemma_view_entries, lemma_view_items, view_entries, view_items, Json, JsonModel, Number,
};
use crate::table::Table;
use crate::text::{decimal, push_char, push_digits, push_str};

verus! {

/// The transform language: each expression maps a JSON value to a JSON value,
/// reading and writing a scratchpad of named values on the way.
#[derive(Debug, PartialEq)]
pub enum Language {
    At(String),
    Array(Box<Language>),
    Object(Vec<(String, Language)>),
    Splat(Vec<Language>),
    SetVar(String),
    Get(String),
    Const(Json),
    Identity,
    Pipe(Box<Language>, Box<Language>),
    Length,
    Join(String),
    Default(Box<Language>),
    Flatten,
    EmitEvent(Option<String>, EventTopic, EventType, u128, Json),
}

/// The mathematical form of a `Language` expression.
pub enum Expr {
    At(Seq<char>),
    Array(Box<Expr>),
    Object(Seq<(Seq<char>, Expr)>),
    Splat(Seq<Expr>),
    SetVar(Seq<char>),
    Get(Seq<char>),
    Const(JsonModel),
    Identity,
    Pipe(Box<Expr>, Box<Expr>),
    Length,
    Join(Seq<char>),
    Default(Box<Expr>),
    Flatten,
    EmitEvent(Option<Seq<char>>, Seq<char>, EventType, u128, JsonModel),
}

pub open spec fn view_langs(langs: Seq<Language>) -> Seq<Expr>
    decreases langs,
{
    if langs.len() == 0 {
        Seq::empty()
    } else {
        view_langs(langs.drop_last()).push(langs[langs.len() - 1].view_lang())
    }
}

pub open spec fn view_pairs(pairs: Seq<(String, Language)>) -> Seq<(Seq<char>, Expr)>
    decreases pairs,
{
    if pairs.len() == 0 {
        Seq::empty()
    } else {
        let last = pairs[pairs.len() - 1];
        view_pairs(pairs.drop_last()).push((last.0@, last.1.view_lang()))
    }
}

impl Language {
    pub open spec fn view_lang(&self) -> Expr
        decreases self,
    {
        match self {
            Language::At(k) => Expr::At(k@),
            Language::Array(sub) => Expr::Array(Box::new(sub.view_lang())),
            Language::Object(pairs) => Expr::Object(view_pairs(pairs@)),
            Language::Splat(subs) => Expr::Splat(view_langs(subs@)),
            Language::SetVar(k) => Expr::SetVar(k@),
            Language::Get(k) => Expr::Get(k@),
            Language::Const(v) => Expr::Const(v@),
            Language::Identity => Expr::Identity,
            Language::Pipe(a, b) => Expr::Pipe(Box::new(a.view_lang()), Box::new(b.view_lang())),
            Language::Length => Expr::Length,
            Language::Join(sep) => Expr::Join(sep@),
            Language::Default(sub) => Expr::Default(Box::new(sub.view_lang())),
            Language::Flatten => Expr::Flatten,
            Language::EmitEvent(owner, topic, et, cid, page) => Expr::EmitEvent(
                opt_str(*owner),
                topic.queue_url@,
                *et,
                *cid,
                page@,
            ),
        }
    }
}

impl View for Language {
    type V = Expr;

    open spec fn view(&self) -> Expr {
        self.view_lang()
    }
}

pub proof fn lemma_view_langs(langs: Seq<Language>)
    ensures
        view_langs(langs).len() == langs.len(),
        forall|j: int| 0 <= j < langs.len() ==> #[trigger] view_langs(langs)[j] == langs[j]@,
    decreases langs.len(),
{
    if langs.len() > 0 {
        lemma_view_langs(langs.drop_last());
    }
}

pub proof fn lemma_view_pairs(pairs: Seq<(String, Language)>)
    ensures
        view_pairs(pairs).len() == pairs.len(),
        forall|j: int|
            0 <= j < pairs.len() ==> #[trigger] view_pairs(pairs)[j] == (pairs[j].0@, pairs[j].1@),
    decreases pairs.len(),
{
    if pairs.len() > 0 {
        lemma_view_pairs(pairs.drop_last());
    }
}

impl Language {
    pub fn array(arr: Language) -> (r: Language)
        ensures
            r@ == Expr::Array(Box::new(arr@)),
    {
        Language::Array(Box::new(arr))
    }

    pub fn at(key: &str) -> (r: Language)
        ensures
            r@ == Expr::At(key@),
    {
        Language::At(key.to_owned())
    }

    pub fn default(def: Language) -> (r: Language)
        ensures
            r@ == Expr::Default(Box::new(def@)),
    {
        Language::Default(Box::new(def))
    }

    pub fn get(key: &str) -> (r: Language)
        ensures
            r@ == Expr::Get(key@),
    {
        Language::Get(key.to_owned())
    }

    pub fn set(key: &str) -> (r: Language)
        ensures
            r@ == Expr::SetVar(key@),
    {
        Language::SetVar(key.to_owned())
    }

    /// This expression followed by `next`.
    pub fn map(self, next: Language) -> (r: Language)
        ensures
            r@ == Expr::Pipe(Box::new(self@), Box::new(next@)),
    {
        Language::Pipe(Box::new(self), Box::new(next))
    }
}

/// Why a transform failed: the path from the root expression to the failing
/// node, and the keys that were on offer where a key was missing.
#[derive(Debug)]
pub struct StepError {
    pub history: Vec<String>,
    pub choices: Option<Json>,
}

pub struct StepErrorModel {
    pub history: Seq<Seq<char>>,
    pub choices: Option<JsonModel>,
}

pub open spec fn opt_json(o: Option<Json>) -> Option<JsonModel> {
    match o {
        Some(j) => Some(j@),
        None => None,
    }
}

pub open spec fn view_strings(s: Seq<String>) -> Seq<Seq<char>> {
    Seq::new(s.len(), |i: int| s[i]@)
}

impl View for StepError {
    type V = StepErrorModel;

    open spec fn view(&self) -> StepErrorModel {
        StepErrorModel { history: view_strings(self.history@), choices: opt_json(self.choices) }
    }
}

/// The state that evaluation threads through: the scratchpad, and the events
/// recorded so far.
pub struct Pad {
    pub vars: Map<Seq<char>, JsonModel>,
    pub emitted: Seq<EventModel>,
}

/// A failure with one breadcrumb.
pub open spec fn fail(crumb: Seq<char>) -> StepErrorModel {
    StepErrorModel { history: seq![crumb], choices: None }
}

/// The failure `e` seen from one node further up.
pub open spec fn prepend(crumb: Seq<char>, e: StepErrorModel) -> StepErrorModel {
    StepErrorModel { history: seq![crumb] + e.history, choices: e.choices }
}

/// The breadcrumb of an array element.
pub open spec fn index_crumb(i: nat) -> Seq<char> {
    seq!['['] + decimal(i) + seq![']']
}

/// The breadcrumb of a missing scratchpad entry.
pub open spec fn get_crumb(name: Seq<char>) -> Seq<char> {
    "Get("@ + name + ")"@
}

/// The position of the last entry filed under `k`, or -1.
pub open spec fn last_index(entries: Seq<(Seq<char>, JsonModel)>, k: Seq<char>) -> int
    decreases entries.len(),
{
    if entries.len() == 0 {
        -1
    } else if entries[entries.len() - 1].0 == k {
        entries.len() - 1
    } else {
        last_index(entries.drop_last(), k)
    }
}

/// The value filed under `k` in an object.
pub open spec fn obj_get(entries: Seq<(Seq<char>, JsonModel)>, k: Seq<char>) -> Option<JsonModel> {
    let i = last_index(entries, k);
    if i >= 0 {
        Some(entries[i].1)
    } else {
        None
    }
}

/// An object with `v` filed under `k`: in place of the old value, or at the end.
pub open spec fn obj_put(entries: Seq<(Seq<char>, JsonModel)>, k: Seq<char>, v: JsonModel) -> Seq<
    (Seq<char>, JsonModel),
> {
    let i = last_index(entries, k);
    if i >= 0 {
        entries.update(i, (k, v))
    } else {
        entries.push((k, v))
    }
}

/// The keys of an object, in order, as JSON strings.
pub open spec fn key_list(entries: Seq<(Seq<char>, JsonModel)>) -> Seq<JsonModel> {
    Seq::new(entries.len(), |i: int| JsonModel::String(entries[i].0))
}

/// The strings among `items`, in order.
pub open spec fn strings_in(items: Seq<JsonModel>) -> Seq<Seq<char>>
    decreases items.len(),
{
    if items.len() == 0 {
        Seq::empty()
    } else {
        let rest = strings_in(items.drop_last());
        match items[items.len() - 1] {
            JsonModel::String(s) => rest.push(s),
            _ => rest,
        }
    }
}

/// `parts` with `sep` between each two.
pub open spec fn join(parts: Seq<Seq<char>>, sep: Seq<char>) -> Seq<char>
    decreases parts.len(),
{
    if parts.len() == 0 {
        Seq::empty()
    } else if parts.len() == 1 {
        parts[0]
    } else {
        join(parts.drop_last(), sep) + sep + parts[parts.len() - 1]
    }
}

/// The elements of the arrays in `items`, in order; none if an item is no array.
pub open spec fn concat_arrays(items: Seq<JsonModel>) -> Option<Seq<JsonModel>>
    decreases items.len(),
{
    if items.len() == 0 {
        Some(Seq::empty())
    } else {
        match (concat_arrays(items.drop_last()), items[items.len() - 1]) {
            (Some(acc), JsonModel::Array(xs)) => Some(acc + xs),
            _ => None,
        }
    }
}

/// The value of `e` on `v`, with the scratchpad state after it. Events are
/// recorded only where `emits` holds.
pub open spec fn eval(e: Expr, v: JsonModel, s: Pad, emits: bool) -> (
    Result<JsonModel, StepErrorModel>,
    Pad,
)
    decreases e, 0nat, 0nat,
{
    match e {
        Expr::At(k) => match v {
            JsonModel::Object(es) => match obj_get(es, k) {
                Some(x) => (Ok(x), s),
                None => (
                    Err(
                        StepErrorModel {
                            history: seq![k],
                            choices: Some(JsonModel::Array(key_list(es))),
                        },
                    ),
                    s,
                ),
            },
            _ => (Err(fail(k)), s),
        },
        Expr::Array(sub) => match v {
            JsonModel::Array(items) => {
                let (r, s1) = eval_items(*sub, items, items.len(), s, emits);
                match r {
                    Ok(xs) => (Ok(JsonModel::Array(xs)), s1),
                    Err(err) => (Err(err), s1),
                }
            },
            _ => (Err(fail("<Not an array>"@)), s),
        },
        Expr::Object(pairs) => {
            let (r, s1) = eval_fields(pairs, pairs.len(), v, s, emits);
            match r {
                Ok(es) => (Ok(JsonModel::Object(es)), s1),
                Err(err) => (Err(err), s1),
            }
        },
        Expr::Splat(subs) => if subs.len() == 0 {
            (Err(fail("<Empty splat>"@)), s)
        } else {
            eval_all(subs, subs.len(), v, s, emits)
        },
        Expr::SetVar(name) => (Ok(v), Pad { vars: s.vars.insert(name, v), emitted: s.emitted }),
        Expr::Get(name) => if s.vars.contains_key(name) {
            (Ok(s.vars[name]), s)
        } else {
            (Err(fail(get_crumb(name))), s)
        },
        Expr::Const(c) => (Ok(c), s),
        Expr::Identity => (Ok(v), s),
        Expr::Pipe(a, b) => {
            let (r, s1) = eval(*a, v, s, emits);
            match r {
                Ok(x) => eval(*b, x, s1, emits),
                Err(err) => (Err(err), s1),
            }
        },
        Expr::Length => match v {
            JsonModel::Array(items) => (Ok(JsonModel::Number(Number::PosInt(items.len() as u64))), s),
            JsonModel::Object(es) => (Ok(JsonModel::Number(Number::PosInt(es.len() as u64))), s),
            _ => (Ok(JsonModel::Null), s),
        },
        Expr::Join(sep) => match v {
            JsonModel::Array(items) => (Ok(JsonModel::String(join(strings_in(items), sep))), s),
            _ => (Err(StepErrorModel { history: Seq::empty(), choices: None }), s),
        },
        Expr::Default(sub) => match v {
            JsonModel::Null => eval(*sub, JsonModel::Null, s, emits),
            _ => (Ok(v), s),
        },
        Expr::Flatten => match v {
            JsonModel::Array(items) => match concat_arrays(items) {
                Some(xs) => (Ok(JsonModel::Array(xs)), s),
                None => (Err(fail("flatten"@)), s),
            },
            _ => (Err(fail("flatten"@)), s),
        },
        Expr::EmitEvent(owner, topic, et, cid, page) => (
            Ok(v),
            if emits {
                Pad {
                    vars: s.vars,
                    emitted: s.emitted.push(
                        EventModel {
                            topic: topic,
                            owner_id: owner,
                            event_type: et,
                            context_id: cid,
                            payload: v,
                            page_context: page,
                        },
                    ),
                }
            } else {
                s
            },
        ),
    }
}

/// `sub` applied to the first `n` of `items`, in order.
pub open spec fn eval_items(sub: Expr, items: Seq<JsonModel>, n: nat, s: Pad, emits: bool) -> (
    Result<Seq<JsonModel>, StepErrorModel>,
    Pad,
)
    decreases sub, 1nat, n,
{
    if n == 0 || n > items.len() {
        (Ok(Seq::empty()), s)
    } else {
        let (r, s1) = eval_items(sub, items, (n - 1) as nat, s, emits);
        match r {
            Ok(xs) => {
                let (r2, s2) = eval(sub, items[n - 1], s1, emits);
                match r2 {
                    Ok(x) => (Ok(xs.push(x)), s2),
                    Err(err) => (Err(prepend(index_crumb((n - 1) as nat), err)), s2),
                }
            },
            Err(err) => (Err(err), s1),
        }
    }
}

/// The first `n` fields of an object expression, each evaluated on `v`.
pub open spec fn eval_fields(
    pairs: Seq<(Seq<char>, Expr)>,
    n: nat,
    v: JsonModel,
    s: Pad,
    emits: bool,
) -> (Result<Seq<(Seq<char>, JsonModel)>, StepErrorModel>, Pad)
    decreases pairs, 1nat, n,
{
    if n == 0 || n > pairs.len() {
        (Ok(Seq::empty()), s)
    } else {
        let (r, s1) = eval_fields(pairs, (n - 1) as nat, v, s, emits);
        match r {
            Ok(es) => {
                let key = pairs[n - 1].0;
                let (r2, s2) = eval(pairs[n - 1].1, v, s1, emits);
                match r2 {
                    Ok(x) => (Ok(obj_put(es, key, x)), s2),
                    Err(err) => (Err(prepend(key, err)), s2),
                }
            },
            Err(err) => (Err(err), s1),
        }
    }
}

/// The first `n` expressions of a splat, each evaluated on `v`; the value is the last one's.
pub open spec fn eval_all(subs: Seq<Expr>, n: nat, v: JsonModel, s: Pad, emits: bool) -> (
    Result<JsonModel, StepErrorModel>,
    Pad,
)
    decreases subs, 1nat, n,
{
    if n == 0 || n > subs.len() {
        (Ok(v), s)
    } else {
        let (r, s1) = eval_all(subs, (n - 1) as nat, v, s, emits);
        match r {
            Ok(_) => eval(subs[n - 1], v, s1, emits),
            Err(err) => (Err(err), s1),
        }
    }
}

pub proof fn lemma_last_index(es: Seq<(Seq<char>, JsonModel)>, k: Seq<char>)
    ensures
        -1 <= last_index(es, k) < es.len(),
        last_index(es, k) >= 0 ==> es[last_index(es, k)].0 == k,
        forall|j: int| last_index(es, k) < j < es.len() ==> #[trigger] es[j].0 != k,
    decreases es.len(),
{
    if es.len() > 0 {
        let init = es.drop_last();
        lemma_last_index(init, k);
        assert forall|j: int| last_index(es, k) < j < es.len() implies #[trigger] es[j].0 != k by {
            if j < es.len() - 1 {
                assert(init[j] == es[j]);
            }
        }
    }
}

proof fn lemma_items_err(sub: Expr, items: Seq<JsonModel>, n: nat, m: nat, s: Pad, emits: bool)
    requires
        n <= m <= items.len(),
        eval_items(sub, items, n, s, emits).0 is Err,
    ensures
        eval_items(sub, items, m, s, emits) == eval_items(sub, items, n, s, emits),
    decreases m,
{
    if m > n {
        lemma_items_err(sub, items, n, (m - 1) as nat, s, emits);
    }
}

proof fn lemma_fields_err(
    pairs: Seq<(Seq<char>, Expr)>,
    n: nat,
    m: nat,
    v: JsonModel,
    s: Pad,
    emits: bool,
)
    requires
        n <= m <= pairs.len(),
        eval_fields(pairs, n, v, s, emits).0 is Err,
    ensures
        eval_fields(pairs, m, v, s, emits) == eval_fields(pairs, n, v, s, emits),
    decreases m,
{
    if m > n {
        lemma_fields_err(pairs, n, (m - 1) as nat, v, s, emits);
    }
}

proof fn lemma_all_err(subs: Seq<Expr>, n: nat, m: nat, v: JsonModel, s: Pad, emits: bool)
    requires
        n <= m <= subs.len(),
        eval_all(subs, n, v, s, emits).0 is Err,
    ensures
        eval_all(subs, m, v, s, emits) == eval_all(subs, n, v, s, emits),
    decreases m,
{
    if m > n {
        lemma_all_err(subs, n, (m - 1) as nat, v, s, emits);
    }
}

/// Where events go while a transform runs.
#[derive(Clone)]
pub struct TranslateContext {
    client: Option<Arc<EventClient>>,
}

impl TranslateContext {
    /// Whether `EmitEvent` records events.
    pub closed spec fn emits(&self) -> bool {
        self.client is Some
    }

    /// A context in which events go nowhere.
    pub fn noop() -> (r: TranslateContext)
        ensures
            !r.emits(),
    {
        TranslateContext { client: None }
    }

    /// A context in which events are recorded for `client`.
    pub fn build(client: Arc<EventClient>) -> (r: TranslateContext)
        ensures
            r.emits(),
    {
        TranslateContext { client: Some(client) }
    }

    pub fn emits_events(&self) -> (r: bool)
        ensures
            r == self.emits(),
    {
        self.client.is_some()
    }
}

/// The scratchpad of one evaluation, with the events recorded so far.
pub struct State {
    vars: Table<Json>,
    emitted: Vec<Event>,
}

pub open spec fn view_events(evs: Seq<Event>) -> Seq<EventModel> {
    Seq::new(evs.len(), |i: int| evs[i]@)
}

impl State {
    pub closed spec fn wf(&self) -> bool {
        self.vars.wf()
    }

    /// The scratchpad and the recorded events.
    pub closed spec fn pad(&self) -> Pad {
        Pad {
            vars: Map::new(|k: Seq<char>| self.vars.dom().contains(k), |k: Seq<char>| self.vars.at(k)@),
            emitted: view_events(self.emitted@),
        }
    }

    /// The value stored under `name`.
    pub fn lookup(&self, name: &String) -> (r: Option<Json>)
        requires
            self.wf(),
        ensures
            match r {
                Some(v) => self.pad().vars.contains_key(name@) && v@ == self.pad().vars[name@],
                None => !self.pad().vars.contains_key(name@),
            },
    {
        match self.vars.get(name) {
            Some(v) => Some(v.deep_clone()),
            None => None,
        }
    }

    /// The events recorded so far, in order.
    pub fn events(&self) -> (r: &Vec<Event>)
        ensures
            view_events(r@) == self.pad().emitted,
    {
        &self.emitted
    }

    fn store(&mut self, name: &String, v: &Json)
        requires
            old(self).wf(),
        ensures
            final(self).wf(),
            final(self).pad() == (Pad {
                vars: old(self).pad().vars.insert(name@, v@),
                emitted: old(self).pad().emitted,
            }),
    {
        self.vars.insert(name.clone(), v.deep_clone());
        assert(self.pad().vars =~= old(self).pad().vars.insert(name@, v@));
    }

    fn record(&mut self, e: Event)
        ensures
            final(self).wf() == old(self).wf(),
            final(self).pad() == (Pad {
                vars: old(self).pad().vars,
                emitted: old(self).pad().emitted.push(e@),
            }),
    {
        self.emitted.push(e);
        assert(self.pad().emitted =~= old(self).pad().emitted.push(e@));
        assert(self.pad().vars =~= old(self).pad().vars);
    }
}

/// A fresh scratchpad, with no events.
pub fn make_state() -> (r: State)
    ensures
        r.wf(),
        r.pad().vars == Map::<Seq<char>, JsonModel>::empty(),
        r.pad().emitted.len() == 0,
{
    let r = State { vars: Table::new(), emitted: Vec::new() };
    assert(r.pad().vars =~= Map::<Seq<char>, JsonModel>::empty());
    r
}

pub open spec fn outcome(r: Result<Json, StepError>) -> Result<JsonModel, StepErrorModel> {
    match r {
        Ok(v) => Ok(v@),
        Err(e) => Err(e@),
    }
}

/// The position of the last entry filed under `k`.
fn find_last(entries: &Vec<(String, Json)>, k: &String) -> (r: Option<usize>)
    ensures
        match r {
            Some(pos) => pos < entries.len() && last_index(view_entries(entries@), k@) == pos,
            None => last_index(view_entries(entries@), k@) == -1,
        },
{
    proof {
        lemma_view_entries(entries@);
        lemma_last_index(view_entries(entries@), k@);
    }
    let mut i: usize = entries.len();
    while i > 0
        invariant
            i <= entries.len(),
            forall|j: int| i <= j < entries.len() ==> #[trigger] entries[j].0@ != k@,
            view_entries(entries@).len() == entries.len(),
            forall|j: int|
                0 <= j < entries.len() ==> #[trigger] view_entries(entries@)[j] == (
                    entries[j].0@,
                    entries[j].1@,
                ),
            -1 <= last_index(view_entries(entries@), k@) < entries.len(),
            last_index(view_entries(entries@), k@) >= 0 ==> view_entries(entries@)[last_index(
                view_entries(entries@),
                k@,
            )].0 == k@,
            forall|j: int|
                last_index(view_entries(entries@), k@) < j < entries.len() ==> #[trigger] view_entries(
                    entries@,
                )[j].0 != k@,
        decreases i,
    {
        if entries[i - 1].0 == *k {
            let ghost li = last_index(view_entries(entries@), k@);
            assert(entries[i - 1].0@ == k@);
            assert(li == i - 1) by {
                assert(view_entries(entries@)[i - 1] == (entries[i - 1].0@, entries[i - 1].1@));
                assert(view_entries(entries@)[i - 1].0 == k@);
                if li > i - 1 {
                    assert(view_entries(entries@)[li] == (entries[li].0@, entries[li].1@));
                }
            }
            return Some(i - 1);
        }
        i = i - 1;
    }
    None
}

/// Files `v` under `k`, in place of an old value or at the end.
fn put_field(entries: &mut Vec<(String, Json)>, k: String, v: Json)
    ensures
        view_entries(final(entries)@) == obj_put(view_entries(old(entries)@), k@, v@),
{
    let ghost old_entries = entries@;
    let ghost km = k@;
    let ghost vm = v@;
    proof {
        lemma_view_entries(old_entries);
    }
    match find_last(entries, &k) {
        Some(i) => {
            entries.set(i, (k, v));
            proof {
                lemma_view_entries(entries@);
            }
            assert(view_entries(entries@) =~= view_entries(old_entries).update(i as int, (km, vm)));
        },
        None => {
            entries.push((k, v));
            proof {
                lemma_view_entries(entries@);
            }
            assert(view_entries(entries@) =~= view_entries(old_entries).push((km, vm)));
        },
    }
}

fn one_crumb(crumb: String) -> (r: StepError)
    ensures
        r@ == fail(crumb@),
{
    let r = StepError { history: vec![crumb], choices: None };
    assert(r@.history =~= seq![crumb@]);
    r
}

fn prepend_history(e: StepError, crumb: String) -> (r: StepError)
    ensures
        r@ == prepend(crumb@, e@),
{
    let mut e = e;
    let ghost before = e@;
    e.history.insert(0, crumb);
    assert(e@.history =~= seq![crumb@] + before.history);
    e
}

fn index_crumb_of(i: usize) -> (r: String)
    ensures
        r@ == index_crumb(i as nat),
{
    let mut s = String::new();
    push_char(&mut s, '[');
    push_digits(&mut s, i as u64, 10);
    push_char(&mut s, ']');
    assert(s@ =~= index_crumb(i as nat));
    s
}

fn key_list_of(entries: &Vec<(String, Json)>) -> (r: Json)
    ensures
        r@ == JsonModel::Array(key_list(view_entries(entries@))),
{
    proof {
        lemma_view_entries(entries@);
    }
    let mut out: Vec<Json> = Vec::new();
    let mut i: usize = 0;
    while i < entries.len()
        invariant
            i <= entries.len(),
            out.len() == i,
            forall|j: int| 0 <= j < i ==> #[trigger] out[j]@ == JsonModel::String(entries[j].0@),
        decreases entries.len() - i,
    {
        out.push(Json::String(entries[i].0.clone()));
        i = i + 1;
    }
    proof {
        lemma_view_items(out@);
    }
    assert(view_items(out@) =~= key_list(view_entries(entries@)));
    Json::Array(out)
}

fn join_strings(items: &Vec<Json>, sep: &String) -> (r: String)
    ensures
        r@ == join(strings_in(view_items(items@)), sep@),
{
    let ghost m = view_items(items@);
    proof {
        lemma_view_items(items@);
    }
    let mut acc = String::new();
    let mut started = false;
    let mut i: usize = 0;
    while i < items.len()
        invariant
            i <= items.len(),
            m.len() == items.len(),
            forall|j: int| 0 <= j < items.len() ==> #[trigger] m[j] == items[j]@,
            acc@ == join(strings_in(m.subrange(0, i as int)), sep@),
            started == (strings_in(m.subrange(0, i as int)).len() > 0),
        decreases items.len() - i,
    {
        let ghost parts = strings_in(m.subrange(0, i as int));
        assert(m.subrange(0, i + 1).drop_last() =~= m.subrange(0, i as int));
        match &items[i] {
            Json::String(x) => {
                if started {
                    push_str(&mut acc, sep.as_str());
                }
                push_str(&mut acc, x.as_str());
                assert(parts.push(x@).drop_last() =~= parts);
                assert(acc@ =~= join(parts.push(x@), sep@));
                started = true;
            },
            _ => {},
        }
        i = i + 1;
    }
    assert(m.subrange(0, items.len() as int) =~= m);
    acc
}

fn flatten_items(items: &Vec<Json>) -> (r: Option<Vec<Json>>)
    ensures
        match r {
            Some(out) => concat_arrays(view_items(items@)) == Some(view_items(out@)),
            None => concat_arrays(view_items(items@)) is None,
        },
{
    let ghost m = view_items(items@);
    proof {
        lemma_view_items(items@);
    }
    let mut out: Vec<Json> = Vec::new();
    let mut i: usize = 0;
    while i < items.len()
        invariant
            i <= items.len(),
            m == view_items(items@),
            m.len() == items.len(),
            forall|j: int| 0 <= j < items.len() ==> #[trigger] m[j] == items[j]@,
            concat_arrays(m.subrange(0, i as int)) == Some(view_items(out@)),
        decreases items.len() - i,
    {
        assert(m.subrange(0, i + 1).drop_last() =~= m.subrange(0, i as int));
        match &items[i] {
            Json::Array(xs) => {
                let ghost before = out@;
                let mut k: usize = 0;
                while k < xs.len()
                    invariant
                        k <= xs.len(),
                        out@.len() == before.len() + k,
                        forall|j: int| 0 <= j < before.len() ==> #[trigger] out@[j] == before[j],
                        forall|j: int|
                            0 <= j < k ==> #[trigger] out@[before.len() + j]@ == xs@[j]@,
                    decreases xs.len() - k,
                {
                    out.push(xs[k].deep_clone());
                    k = k + 1;
                }
                proof {
                    lemma_view_items(out@);
                    lemma_view_items(xs@);
                    lemma_view_items(before);
                    assert forall|j: int|
                        before.len() <= j < out@.len() implies #[trigger] out@[j]@ == xs@[j
                        - before.len()]@ by {
                        let t = j - before.len();
                        assert(out@[before.len() + t]@ == xs@[t]@);
                    }
                }
                assert(view_items(out@) =~= view_items(before) + view_items(xs@));
            },
            _ => {
                assert(m.subrange(0, i + 1)[i as int] == m[i as int]);
                assert(m[i as int] !is Array);
                assert(concat_arrays(m.subrange(0, i + 1)) is None);
                proof {
                    lemma_concat_none(m, (i + 1) as nat, items.len() as nat);
                }
                assert(m.subrange(0, items.len() as int) =~= m);
                return None;
            },
        }
        i = i + 1;
    }
    assert(m.subrange(0, items.len() as int) =~= m);
    Some(out)
}

proof fn lemma_concat_none(m: Seq<JsonModel>, n: nat, k: nat)
    requires
        n <= k <= m.len(),
        concat_arrays(m.subrange(0, n as int)) is None,
    ensures
        concat_arrays(m.subrange(0, k as int)) is None,
    decreases k,
{
    if k > n {
        lemma_concat_none(m, n, (k - 1) as nat);
        assert(m.subrange(0, k as int).drop_last() =~= m.subrange(0, k - 1));
    }
}

/// Evaluates `prog` on `current`.
pub fn step(ctx: &TranslateContext, prog: &Language, current: &Json, state: &mut State) -> (r: Result<
    Json,
    StepError,
>)
    requires
        old(state).wf(),
    ensures
        final(state).wf(),
        (outcome(r), final(state).pad()) == eval(prog@, current@, old(state).pad(), ctx.emits()),
    decreases prog,
{
    match prog {
        Language::At(key) => match current {
            Json::Object(entries) => match find_last(entries, key) {
                Some(i) => {
                    proof {
                        lemma_view_entries(entries@);
                    }
                    Ok(entries[i].1.deep_clone())
                },
                None => {
                    let choices = key_list_of(entries);
                    let r = StepError { history: vec![key.clone()], choices: Some(choices) };
                    assert(r@.history =~= seq![key@]);
                    Err(r)
                },
            },
            _ => Err(one_crumb(key.clone())),
        },
        Language::Array(sub) => match current {
            Json::Array(items) => {
                let ghost m = view_items(items@);
                let ghost s0 = state.pad();
                proof {
                    lemma_view_items(items@);
                }
                let mut out: Vec<Json> = Vec::new();
                let mut i: usize = 0;
                while i < items.len()
                    invariant
                        *prog == Language::Array(*sub),
                        *current == Json::Array(*items),
                        m == view_items(items@),
                        s0 == old(state).pad(),
                        i <= items.len(),
                        m.len() == items.len(),
                        forall|j: int| 0 <= j < items.len() ==> #[trigger] m[j] == items[j]@,
                        state.wf(),
                        eval_items(sub@, m, i as nat, s0, ctx.emits()) == (
                            Ok::<Seq<JsonModel>, StepErrorModel>(view_items(out@)),
                            state.pad(),
                        ),
                    decreases items.len() - i,
                {
                    proof {
                        assert(decreases_to!(*prog => prog->Array_0));
                    }
                    match step(ctx, sub, &items[i], state) {
                        Ok(x) => {
                            let ghost before = out@;
                            out.push(x);
                            assert(out@.drop_last() =~= before);
                        },
                        Err(e) => {
                            let crumb = index_crumb_of(i);
                            let e2 = prepend_history(e, crumb);
                            assert(eval_items(sub@, m, (i + 1) as nat, s0, ctx.emits()) == (
                                Err::<Seq<JsonModel>, StepErrorModel>(e2@),
                                state.pad(),
                            ));
                            proof {
                                lemma_items_err(sub@, m, (i + 1) as nat, m.len(), s0, ctx.emits());
                            }
                            assert(current@ == JsonModel::Array(m));
                            assert(prog@ == Expr::Array(Box::new(sub@)));
                            return Err(e2);
                        },
                    }
                    i = i + 1;
                }
                Ok(Json::Array(out))
            },
            _ => Err(one_crumb("<Not an array>".to_owned())),
        },
        Language::Object(pairs) => {
            let ghost pm = view_pairs(pairs@);
            let ghost s0 = state.pad();
            proof {
                lemma_view_pairs(pairs@);
            }
            let mut out: Vec<(String, Json)> = Vec::new();
            let mut i: usize = 0;
            while i < pairs.len()
                invariant
                    *prog == Language::Object(*pairs),
                    pm == view_pairs(pairs@),
                    s0 == old(state).pad(),
                    i <= pairs.len(),
                    pm.len() == pairs.len(),
                    forall|j: int|
                        0 <= j < pairs.len() ==> #[trigger] pm[j] == (pairs[j].0@, pairs[j].1@),
                    state.wf(),
                    eval_fields(pm, i as nat, current@, s0, ctx.emits()) == (
                        Ok::<Seq<(Seq<char>, JsonModel)>, StepErrorModel>(view_entries(out@)),
                        state.pad(),
                    ),
                decreases pairs.len() - i,
            {
                proof {
                    assert(decreases_to!(*prog => prog->Object_0));
                    assert(decreases_to!(prog->Object_0 => pairs[i as int]));
                    assert(decreases_to!(pairs[i as int] => pairs[i as int].1));
                }
                match step(ctx, &pairs[i].1, current, state) {
                    Ok(x) => {
                        put_field(&mut out, pairs[i].0.clone(), x);
                    },
                    Err(e) => {
                        let e2 = prepend_history(e, pairs[i].0.clone());
                        assert(eval_fields(pm, (i + 1) as nat, current@, s0, ctx.emits()) == (
                            Err::<Seq<(Seq<char>, JsonModel)>, StepErrorModel>(e2@),
                            state.pad(),
                        ));
                        proof {
                            lemma_fields_err(pm, (i + 1) as nat, pm.len(), current@, s0, ctx.emits());
                        }
                        return Err(e2);
                    },
                }
                i = i + 1;
            }
            Ok(Json::Object(out))
        },
        Language::Splat(subs) => {
            proof {
                lemma_view_langs(subs@);
            }
            if subs.len() == 0 {
                return Err(one_crumb("<Empty splat>".to_owned()));
            }
            let ghost sm = view_langs(subs@);
            let ghost s0 = state.pad();
            proof {
                lemma_view_langs(subs@);
            }
            let mut last = Json::Null;
            let mut i: usize = 0;
            while i < subs.len()
                invariant
                    *prog == Language::Splat(*subs),
                    sm == view_langs(subs@),
                    s0 == old(state).pad(),
                    i <= subs.len(),
                    sm.len() == subs.len(),
                    forall|j: int| 0 <= j < subs.len() ==> #[trigger] sm[j] == subs[j]@,
                    state.wf(),
                    eval_all(sm, i as nat, current@, s0, ctx.emits()).1 == state.pad(),
                    eval_all(sm, i as nat, current@, s0, ctx.emits()).0 is Ok,
                    i > 0 ==> eval_all(sm, i as nat, current@, s0, ctx.emits()).0 == Ok::<
                        JsonModel,
                        StepErrorModel,
                    >(last@),
                decreases subs.len() - i,
            {
                proof {
                    assert(decreases_to!(*prog => prog->Splat_0));
                    assert(decreases_to!(prog->Splat_0 => subs[i as int]));
                }
                match step(ctx, &subs[i], current, state) {
                    Ok(x) => {
                        last = x;
                    },
                    Err(e) => {
                        assert(eval_all(sm, (i + 1) as nat, current@, s0, ctx.emits()) == (
                            Err::<JsonModel, StepErrorModel>(e@),
                            state.pad(),
                        ));
                        proof {
                            lemma_all_err(sm, (i + 1) as nat, sm.len(), current@, s0, ctx.emits());
                        }
                        return Err(e);
                    },
                }
                i = i + 1;
            }
            Ok(last)
        },
        Language::SetVar(name) => {
            state.store(name, current);
            Ok(current.deep_clone())
        },
        Language::Get(name) => match state.lookup(name) {
            Some(v) => Ok(v),
            None => {
                let mut crumb = String::new();
                push_str(&mut crumb, "Get(");
                push_str(&mut crumb, name.as_str());
                push_str(&mut crumb, ")");
                assert(crumb@ =~= get_crumb(name@));
                Err(one_crumb(crumb))
            },
        },
        Language::Const(v) => Ok(v.deep_clone()),
        Language::Identity => Ok(current.deep_clone()),
        Language::Pipe(first, second) => match step(ctx, first, current, state) {
            Ok(x) => step(ctx, second, &x, state),
            Err(e) => Err(e),
        },
        Language::Length => match current {
            Json::Array(items) => {
                proof {
                    lemma_view_items(items@);
                }
                Ok(Json::Number(Number::PosInt(items.len() as u64)))
            },
            Json::Object(entries) => {
                proof {
                    lemma_view_entries(entries@);
                }
                Ok(Json::Number(Number::PosInt(entries.len() as u64)))
            },
            _ => Ok(Json::Null),
        },
        Language::Join(sep) => match current {
            Json::Array(items) => Ok(Json::String(join_strings(items, sep))),
            _ => {
                let r = StepError { history: Vec::new(), choices: None };
                assert(r@.history =~= Seq::<Seq<char>>::empty());
                Err(r)
            },
        },
        Language::Default(sub) => match current {
            Json::Null => step(ctx, sub, &Json::Null, state),
            _ => Ok(current.deep_clone()),
        },
        Language::Flatten => match current {
            Json::Array(items) => match flatten_items(items) {
                Some(out) => Ok(Json::Array(out)),
                None => Err(one_crumb("flatten".to_owned())),
            },
            _ => Err(one_crumb("flatten".to_owned())),
        },
        Language::EmitEvent(owner, topic, et, cid, page) => {
            if ctx.emits_events() {
                let owner_id = match owner {
                    Some(o) => Some(o.clone()),
                    None => None,
                };
                let e = Event {
                    topic: topic.duplicate(),
                    owner_id,
                    event_type: *et,
                    context_id: *cid,
                    payload: current.deep_clone(),
                    page_context: page.deep_clone(),
                };
                state.record(e);
            }
            Ok(current.deep_clone())
        },
    }
}

} // verus!
