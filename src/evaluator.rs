use vstd::prelude::*;
use crate::cache::{lookup, CacheEntryModel, MemoizationCache, DEFAULT_TTL_MS};
use crate::cryptogram::{view_headers, view_steps, Cryptogram, StepModel};
use crate::hash::{canonical, default_hash, memo_key_of};
use crate::json::{view_entries, Json, JsonModel, Number};
use crate::registry::{scheme_text, HttpMethod, Services};
use crate::text::{hex, push_str};
use crate::translate::{eval, step, Pad, State, StepError, StepErrorModel, TranslateContext};

verus! {

/// Why an outbound call failed.
#[derive(Debug)]
pub enum ClientError {
    SendError(String),
    InvalidJsonError(String),
    InvalidPayloadError(String),
    NetworkError(Json),
    UriBuilderError(String),
    Utf8Error(String),
}

/// Why an evaluation stopped.
#[derive(Debug)]
pub enum EvaluateError {
    ClientError(String),
    InvalidJsonError(String),
    InvalidPayloadError(String),
    NetworkError(Json),
    UnknownStep(usize),
    InvalidStructure(StepError),
    InvalidTransition,
    NoStepsSpecified,
    UnknownMethod(String, String),
    UnknownService(String),
    UriBuilderError(String),
    Utf8Error(String),
}

impl EvaluateError {
    /// The evaluation error that a failed outbound call amounts to.
    pub fn from_client(e: ClientError) -> (r: EvaluateError)
        ensures
            match e {
                ClientError::SendError(m) => r == EvaluateError::ClientError(m),
                ClientError::InvalidJsonError(m) => r == EvaluateError::InvalidJsonError(m),
                ClientError::InvalidPayloadError(m) => r == EvaluateError::InvalidPayloadError(m),
                ClientError::NetworkError(c) => r == EvaluateError::NetworkError(c),
                ClientError::UriBuilderError(m) => r == EvaluateError::UriBuilderError(m),
                ClientError::Utf8Error(m) => r == EvaluateError::Utf8Error(m),
            },
    {
        match e {
            ClientError::SendError(m) => EvaluateError::ClientError(m),
            ClientError::InvalidJsonError(m) => EvaluateError::InvalidJsonError(m),
            ClientError::InvalidPayloadError(m) => EvaluateError::InvalidPayloadError(m),
            ClientError::NetworkError(c) => EvaluateError::NetworkError(c),
            ClientError::UriBuilderError(m) => EvaluateError::UriBuilderError(m),
            ClientError::Utf8Error(m) => EvaluateError::Utf8Error(m),
        }
    }
}

/// An object of `(key, value)` entries.
pub open spec fn object_of(entries: Seq<(Seq<char>, JsonModel)>) -> JsonModel {
    JsonModel::Object(entries)
}

/// The `err` entry that names an error's kind.
pub open spec fn kind_entry(kind: Seq<char>) -> (Seq<char>, JsonModel) {
    ("err"@, JsonModel::String(kind))
}

/// The JSON body that reports an evaluation error.
pub open spec fn error_json(e: EvaluateError) -> JsonModel {
    match e {
        EvaluateError::ClientError(m) => object_of(
            seq![kind_entry("client"@), ("value"@, JsonModel::String(m@))],
        ),
        EvaluateError::InvalidJsonError(m) => object_of(
            seq![kind_entry("protocol"@), ("value"@, JsonModel::String(m@))],
        ),
        EvaluateError::InvalidPayloadError(m) => object_of(
            seq![kind_entry("payload"@), ("value"@, JsonModel::String(m@))],
        ),
        EvaluateError::NetworkError(c) => c@,
        EvaluateError::UnknownStep(i) => object_of(
            seq![kind_entry("unknown_step"@), ("step"@, JsonModel::Number(Number::PosInt(i as u64)))],
        ),
        EvaluateError::InvalidStructure(se) => object_of(
            seq![
                kind_entry("invalid_structure"@),
                ("history"@, JsonModel::Array(Seq::new(se@.history.len(), |i: int| JsonModel::String(se@.history[i])))),
            ],
        ),
        EvaluateError::InvalidTransition => object_of(seq![kind_entry("unknown_transition"@)]),
        EvaluateError::NoStepsSpecified => object_of(seq![kind_entry("no_steps_specified"@)]),
        EvaluateError::UnknownMethod(svc, m) => object_of(
            seq![
                kind_entry("unknown_method"@),
                ("service_name"@, JsonModel::String(svc@)),
                ("method_name"@, JsonModel::String(m@)),
            ],
        ),
        EvaluateError::UnknownService(svc) => object_of(
            seq![kind_entry("unknown_service"@), ("service_name"@, JsonModel::String(svc@))],
        ),
        EvaluateError::UriBuilderError(_) => object_of(seq![kind_entry("uri_builder_error"@)]),
        EvaluateError::Utf8Error(_) => object_of(seq![kind_entry("utf8_error"@)]),
    }
}

fn push_field(es: &mut Vec<(String, Json)>, k: &str, v: Json)
    ensures
        view_entries(final(es)@) == view_entries(old(es)@).push((k@, v@)),
{
    let ghost before = es@;
    es.push((k.to_owned(), v));
    assert(es@.drop_last() =~= before);
}

fn kind_object(kind: &str) -> (r: Vec<(String, Json)>)
    ensures
        view_entries(r@) == seq![kind_entry(kind@)],
{
    let mut es: Vec<(String, Json)> = Vec::new();
    push_field(&mut es, "err", Json::String(kind.to_owned()));
    assert(view_entries(es@) =~= seq![kind_entry(kind@)]);
    es
}

impl EvaluateError {
    /// The JSON body that reports this error: an object whose `err` entry
    /// names the kind, or the upstream body of a network error.
    pub fn error_as_json(&self) -> (r: Json)
        ensures
            r@ == error_json(*self),
    {
        match self {
            EvaluateError::ClientError(m) => {
                let mut es = kind_object("client");
                push_field(&mut es, "value", Json::String(m.clone()));
                assert(view_entries(es@) =~= error_json(*self)->Object_0);
                Json::Object(es)
            },
            EvaluateError::InvalidJsonError(m) => {
                let mut es = kind_object("protocol");
                push_field(&mut es, "value", Json::String(m.clone()));
                assert(view_entries(es@) =~= error_json(*self)->Object_0);
                Json::Object(es)
            },
            EvaluateError::InvalidPayloadError(m) => {
                let mut es = kind_object("payload");
                push_field(&mut es, "value", Json::String(m.clone()));
                assert(view_entries(es@) =~= error_json(*self)->Object_0);
                Json::Object(es)
            },
            EvaluateError::NetworkError(c) => c.deep_clone(),
            EvaluateError::UnknownStep(i) => {
                let mut es = kind_object("unknown_step");
                push_field(&mut es, "step", Json::Number(Number::PosInt(*i as u64)));
                assert(view_entries(es@) =~= error_json(*self)->Object_0);
                Json::Object(es)
            },
            EvaluateError::InvalidStructure(se) => {
                let mut items: Vec<Json> = Vec::new();
                let mut i: usize = 0;
                while i < se.history.len()
                    invariant
                        i <= se.history.len(),
                        items.len() == i,
                        forall|j: int|
                            0 <= j < i ==> #[trigger] items@[j]@ == JsonModel::String(se.history@[j]@),
                    decreases se.history.len() - i,
                {
                    items.push(Json::String(se.history[i].clone()));
                    i = i + 1;
                }
                proof {
                    crate::json::lemma_view_items(items@);
                }
                assert(crate::json::view_items(items@) =~= Seq::new(
                    se@.history.len(),
                    |i: int| JsonModel::String(se@.history[i]),
                ));
                let mut es = kind_object("invalid_structure");
                push_field(&mut es, "history", Json::Array(items));
                assert(view_entries(es@) =~= error_json(*self)->Object_0);
                Json::Object(es)
            },
            EvaluateError::InvalidTransition => Json::Object(kind_object("unknown_transition")),
            EvaluateError::NoStepsSpecified => Json::Object(kind_object("no_steps_specified")),
            EvaluateError::UnknownMethod(svc, m) => {
                let mut es = kind_object("unknown_method");
                push_field(&mut es, "service_name", Json::String(svc.clone()));
                push_field(&mut es, "method_name", Json::String(m.clone()));
                assert(view_entries(es@) =~= error_json(*self)->Object_0);
                Json::Object(es)
            },
            EvaluateError::UnknownService(svc) => {
                let mut es = kind_object("unknown_service");
                push_field(&mut es, "service_name", Json::String(svc.clone()));
                assert(view_entries(es@) =~= error_json(*self)->Object_0);
                Json::Object(es)
            },
            EvaluateError::UriBuilderError(_) => Json::Object(kind_object("uri_builder_error")),
            EvaluateError::Utf8Error(_) => Json::Object(kind_object("utf8_error")),
        }
    }
}

/// The first step of an edge route's cryptogram after the inbound body came
/// in: its preflight applied to the body, or the body itself, as payload, and
/// no preflight left.
pub open spec fn primed(first: StepModel, body: JsonModel, pad: Pad, emits: bool) -> (
    Result<StepModel, StepErrorModel>,
    Pad,
) {
    match first.preflight {
        Some(f) => {
            let (r, pad_end) = eval(f, body, pad, emits);
            match r {
                Ok(v) => (Ok(StepModel { payload: Some(v), preflight: None, ..first }), pad_end),
                Err(e) => (Err(e), pad_end),
            }
        },
        None => (Ok(StepModel { payload: Some(body), ..first }), pad),
    }
}

/// Feeds the inbound body of an edge route into the first step of its
/// cryptogram, before evaluation starts.
pub fn prime_first_step(
    ctx: &TranslateContext,
    cryptogram: &mut Cryptogram,
    body: &Json,
    state: &mut State,
) -> (r: Result<(), EvaluateError>)
    requires
        old(state).wf(),
    ensures
        final(state).wf(),
        final(cryptogram).current == old(cryptogram).current,
        old(cryptogram).steps.len() == 0 ==> r is Ok && final(cryptogram).steps@ == old(
            cryptogram,
        ).steps@ && final(state).pad() == old(state).pad(),
        old(cryptogram).steps.len() > 0 ==> ({
            let (p, pad_end) = primed(
                old(cryptogram).steps@[0]@,
                body@,
                old(state).pad(),
                ctx.emits(),
            );
            &&& final(state).pad() == pad_end
            &&& match p {
                Ok(first) => r is Ok && view_steps(final(cryptogram).steps@) == view_steps(
                    old(cryptogram).steps@,
                ).update(0, first),
                Err(e) => (r matches Err(EvaluateError::InvalidStructure(x)) && x@ == e),
            }
        }),
{
    if cryptogram.steps.len() == 0 {
        return Ok(());
    }
    let ghost before = cryptogram.steps@;
    let mut first = cryptogram.steps.remove(0);
    let payload = match &first.preflight {
        Some(f) => match step(ctx, f, body, state) {
            Ok(v) => v,
            Err(e) => {
                cryptogram.steps.insert(0, first);
                return Err(EvaluateError::InvalidStructure(e));
            },
        },
        None => body.deep_clone(),
    };
    first.payload = Some(payload);
    first.preflight = None;
    cryptogram.steps.insert(0, first);
    assert(view_steps(cryptogram.steps@) =~= view_steps(before).update(
        0,
        cryptogram.steps@[0]@,
    ));
    Ok(())
}

/// One outbound call that a step asks for.
#[derive(Debug)]
pub struct OutboundRequest {
    pub method: HttpMethod,
    pub uri: String,
    pub body: Json,
    pub headers: Vec<(String, String)>,
}

/// What an evaluation asks for next.
#[derive(Debug)]
pub enum Progress {
    /// Make this call and hand its response to `complete`.
    Request(OutboundRequest),
    /// The step is done; the next one is ready.
    Continue,
    /// The last step is done, with this result.
    Done(Json),
}

/// The payload a step starts from: its own, or null.
pub open spec fn start_payload(s: StepModel) -> JsonModel {
    match s.payload {
        Some(v) => v,
        None => JsonModel::Null,
    }
}

/// The body that a step sends: its payload after the preflight transform.
pub open spec fn outbound(s: StepModel, pad: Pad, emits: bool) -> (
    Result<JsonModel, StepErrorModel>,
    Pad,
) {
    match s.preflight {
        Some(e) => eval(e, start_payload(s), pad, emits),
        None => (Ok(start_payload(s)), pad),
    }
}

/// The memoization key of a body under a prefix.
pub open spec fn key_for(prefix: Seq<char>, body: JsonModel) -> Seq<char> {
    prefix + hex(default_hash(canonical(body)) as nat)
}

/// The address of a method of a service.
pub open spec fn uri_for(scheme: crate::registry::Scheme, authority: Seq<char>, path: Seq<char>) -> Seq<
    char,
> {
    scheme_text(scheme) + "://"@ + authority + path
}

/// The steps after step `i` produced `v`: the next step starts from `v`.
pub open spec fn forwarded(steps: Seq<StepModel>, i: int, v: JsonModel) -> Seq<StepModel> {
    if i + 1 < steps.len() {
        steps.update(i + 1, StepModel { payload: Some(v), ..steps[i + 1] })
    } else {
        steps
    }
}

fn clone_headers(h: &Vec<(String, String)>) -> (r: Vec<(String, String)>)
    ensures
        view_headers(r@) == view_headers(h@),
{
    let mut out: Vec<(String, String)> = Vec::new();
    let mut i: usize = 0;
    while i < h.len()
        invariant
            i <= h.len(),
            out.len() == i,
            forall|j: int| 0 <= j < i ==> #[trigger] out@[j].0@ == h@[j].0@ && out@[j].1@ == h@[j].1@,
        decreases h.len() - i,
    {
        out.push((h[i].0.clone(), h[i].1.clone()));
        i = i + 1;
    }
    assert(view_headers(out@) =~= view_headers(h@));
    out
}

/// A cryptogram being evaluated, one step at a time.
pub struct Evaluation {
    cryptogram: Cryptogram,
    pending: Option<Option<String>>,
}

pub open spec fn opt_key(k: Option<String>) -> Option<Seq<char>> {
    match k {
        Some(s) => Some(s@),
        None => None,
    }
}

impl Evaluation {
    pub closed spec fn steps(&self) -> Seq<StepModel> {
        view_steps(self.cryptogram.steps@)
    }

    pub closed spec fn current(&self) -> int {
        self.cryptogram.current as int
    }

    /// Whether a call is outstanding, and under which key its result is to be cached.
    pub closed spec fn pending(&self) -> Option<Option<Seq<char>>> {
        match self.pending {
            Some(k) => Some(opt_key(k)),
            None => None,
        }
    }

    /// Step `old.current()` finished with `v`: the index moved on by one and
    /// `v` went to the next step, or came back as the result.
    pub open spec fn finished(old: Evaluation, new: Evaluation, r: Result<Progress, EvaluateError>, v: JsonModel) -> bool {
        &&& new.current() == old.current() + 1
        &&& new.steps() == forwarded(old.steps(), old.current(), v)
        &&& new.pending() is None
        &&& if old.current() + 1 < old.steps().len() {
            r matches Ok(Progress::Continue)
        } else {
            r matches Ok(Progress::Done(d)) && d@ == v
        }
    }

    /// A finished step moves the index forward by exactly one, and either
    /// hands its payload to the next step or ends the evaluation with it.
    pub proof fn law_steps_move_forward(
        old: Evaluation,
        new: Evaluation,
        r: Result<Progress, EvaluateError>,
        v: JsonModel,
    )
        requires
            0 <= old.current() < old.steps().len(),
            Evaluation::finished(old, new, r, v),
        ensures
            new.current() > old.current(),
            new.steps().len() == old.steps().len(),
            (r matches Ok(Progress::Continue) && new.steps()[new.current()].payload == Some(v))
                || (r matches Ok(Progress::Done(d)) && d@ == v && new.current() == new.steps().len()),
    {
    }

    /// Starts evaluating `cryptogram` at its current step.
    pub fn start(cryptogram: Cryptogram) -> (r: Result<Evaluation, EvaluateError>)
        ensures
            cryptogram.steps.len() == 0 ==> r matches Err(EvaluateError::NoStepsSpecified),
            cryptogram.steps.len() > 0 && cryptogram.current >= cryptogram.steps.len() ==> r
                == Err::<Evaluation, EvaluateError>(EvaluateError::UnknownStep(cryptogram.current)),
            cryptogram.current < cryptogram.steps.len() ==> (r matches Ok(e) && e.steps()
                == view_steps(cryptogram.steps@) && e.current() == cryptogram.current
                && e.pending() is None),
    {
        if cryptogram.steps.len() == 0 {
            Err(EvaluateError::NoStepsSpecified)
        } else if cryptogram.current >= cryptogram.steps.len() {
            Err(EvaluateError::UnknownStep(cryptogram.current))
        } else {
            Ok(Evaluation { cryptogram, pending: None })
        }
    }

    /// Whether `advance` may be called: a step is left and no call is outstanding.
    pub fn can_advance(&self) -> (r: bool)
        ensures
            r == (self.current() < self.steps().len() && self.pending() is None),
    {
        self.cryptogram.current < self.cryptogram.steps.len() && self.pending.is_none()
    }

    /// Whether a call is outstanding, so that `complete` may be called.
    pub fn awaiting_response(&self) -> (r: bool)
        ensures
            r == (self.current() < self.steps().len() && self.pending() is Some),
    {
        self.cryptogram.current < self.cryptogram.steps.len() && self.pending.is_some()
    }

    /// The cryptogram, with the payloads that the steps so far have passed on.
    pub fn into_cryptogram(self) -> (r: Cryptogram)
        ensures
            view_steps(r.steps@) == self.steps(),
            r.current == self.current(),
    {
        self.cryptogram
    }

    /// Runs the current step up to its outbound call: the preflight transform,
    /// a memoization lookup, and the choice of service and method. A step that
    /// needs no call, or whose result is cached, is finished on the spot.
    pub fn advance(
        &mut self,
        ctx: &TranslateContext,
        cache: &MemoizationCache,
        services: &Services,
        state: &mut State,
        now: u64,
    ) -> (r: Result<Progress, EvaluateError>)
        requires
            old(self).current() < old(self).steps().len(),
            old(self).pending() is None,
            old(state).wf(),
            cache.wf(),
            services.wf(),
        ensures
            final(state).wf(),
            ({
                let st = old(self).steps()[old(self).current()];
                let (ob, pad_after) = outbound(st, old(state).pad(), ctx.emits());
                match ob {
                    Err(e) => (r matches Err(EvaluateError::InvalidStructure(x)) && x@ == e)
                        && final(state).pad() == pad_after,
                    Ok(out) => if st.memoization_prefix is Some && lookup(
                        cache.entries(),
                        key_for(st.memoization_prefix->0, out),
                        now,
                    ) is Some {
                        &&& final(state).pad() == pad_after
                        &&& Evaluation::finished(
                            *old(self),
                            *final(self),
                            r,
                            lookup(cache.entries(), key_for(st.memoization_prefix->0, out), now)->0,
                        )
                    } else if st.service is Some && st.method is Some {
                        let svc = st.service->0;
                        let m = st.method->0;
                        &&& final(state).pad() == pad_after
                        &&& if !services.names().contains(svc) {
                            r matches Err(EvaluateError::UnknownService(n)) && n@ == svc
                        } else if !services.service(svc).methods().contains_key(m) {
                            r matches Err(EvaluateError::UnknownMethod(a, b)) && a@ == svc && b@ == m
                        } else {
                            let sd = services.service(svc);
                            let md = sd.methods()[m];
                            &&& r matches Ok(Progress::Request(req)) && req.method == md.http_method
                                && req.uri@ == uri_for(sd.scheme, sd.authority@, md.path_and_query)
                                && req.body@ == out && view_headers(req.headers@) == st.headers
                            &&& final(self).steps() == old(self).steps()
                            &&& final(self).current() == old(self).current()
                            &&& final(self).pending() == Some(
                                match st.memoization_prefix {
                                    Some(p) => Some(key_for(p, out)),
                                    None => None,
                                },
                            )
                        }
                    } else {
                        match st.postflight {
                            Some(f) => {
                                let (r2, pad_end) = eval(f, out, pad_after, ctx.emits());
                                &&& final(state).pad() == pad_end
                                &&& match r2 {
                                    Err(e) => r matches Err(EvaluateError::InvalidStructure(x)) && x@
                                        == e,
                                    Ok(v) => Evaluation::finished(*old(self), *final(self), r, v),
                                }
                            },
                            None => final(state).pad() == pad_after && Evaluation::finished(
                                *old(self),
                                *final(self),
                                r,
                                out,
                            ),
                        }
                    },
                }
            }),
    {
        let i = self.cryptogram.current;
        proof {
            assert(self.steps()[i as int] == self.cryptogram.steps@[i as int]@);
        }
        let st = &self.cryptogram.steps[i];
        let start = match &st.payload {
            Some(p) => p.deep_clone(),
            None => Json::Null,
        };
        let out = match &st.preflight {
            Some(pre) => match step(ctx, pre, &start, state) {
                Ok(v) => v,
                Err(e) => {
                    return Err(EvaluateError::InvalidStructure(e));
                },
            },
            None => start,
        };
        let key: Option<String> = match &st.memoization_prefix {
            Some(p) => Some(memo_key_of(p, &out)),
            None => None,
        };
        let hit = match &key {
            Some(k) => cache.get(k, now),
            None => None,
        };
        match hit {
            Some(v) => {
                return self.forward(v);
            },
            None => {},
        }
        match (&st.service, &st.method) {
            (Some(svc_name), Some(method_name)) => {
                let sd = match services.lookup(svc_name) {
                    Some(d) => d,
                    None => {
                        return Err(EvaluateError::UnknownService(svc_name.clone()));
                    },
                };
                let md = match sd.method(method_name) {
                    Some(m) => m,
                    None => {
                        return Err(
                            EvaluateError::UnknownMethod(svc_name.clone(), method_name.clone()),
                        );
                    },
                };
                let mut uri = String::new();
                push_str(&mut uri, sd.scheme.text());
                push_str(&mut uri, "://");
                push_str(&mut uri, sd.authority.as_str());
                push_str(&mut uri, md.path_and_query.as_str());
                let headers = clone_headers(&st.headers);
                let req = OutboundRequest { method: md.http_method, uri, body: out, headers };
                self.pending = Some(key);
                Ok(Progress::Request(req))
            },
            _ => match &st.postflight {
                Some(f) => match step(ctx, f, &out, state) {
                    Ok(v) => self.forward(v),
                    Err(e) => Err(EvaluateError::InvalidStructure(e)),
                },
                None => self.forward(out),
            },
        }
    }

    /// Finishes the current step with the response to its call: the
    /// postflight transform, then the cache, then the next step's payload.
    pub fn complete(
        &mut self,
        ctx: &TranslateContext,
        cache: &mut MemoizationCache,
        state: &mut State,
        response: Json,
        now: u64,
    ) -> (r: Result<Progress, EvaluateError>)
        requires
            old(self).current() < old(self).steps().len(),
            old(self).pending() is Some,
            old(state).wf(),
            old(cache).wf(),
        ensures
            final(state).wf(),
            final(cache).wf(),
            ({
                let st = old(self).steps()[old(self).current()];
                let key = old(self).pending()->0;
                let (res, pad_end) = match st.postflight {
                    Some(f) => eval(f, response@, old(state).pad(), ctx.emits()),
                    None => (Ok(response@), old(state).pad()),
                };
                &&& final(state).pad() == pad_end
                &&& match res {
                    Err(e) => (r matches Err(EvaluateError::InvalidStructure(x)) && x@ == e)
                        && final(cache).entries() == old(cache).entries(),
                    Ok(v) => {
                        &&& Evaluation::finished(*old(self), *final(self), r, v)
                        &&& final(cache).entries() == match key {
                            Some(k) => old(cache).entries().insert(
                                k,
                                CacheEntryModel { cached_at: now, ttl: DEFAULT_TTL_MS, value: v },
                            ),
                            None => old(cache).entries(),
                        }
                    },
                }
            }),
    {
        let i = self.cryptogram.current;
        proof {
            assert(self.steps()[i as int] == self.cryptogram.steps@[i as int]@);
        }
        let v = match &self.cryptogram.steps[i].postflight {
            Some(f) => match step(ctx, f, &response, state) {
                Ok(v) => v,
                Err(e) => {
                    return Err(EvaluateError::InvalidStructure(e));
                },
            },
            None => response,
        };
        let key = match &self.pending {
            Some(k) => match k {
                Some(k) => Some(k.clone()),
                None => None,
            },
            None => None,
        };
        let v = match key {
            Some(k) => cache.insert(k, v, DEFAULT_TTL_MS, now),
            None => v,
        };
        self.forward(v)
    }

    /// Ends step `current` with `v`.
    fn forward(&mut self, v: Json) -> (r: Result<Progress, EvaluateError>)
        requires
            old(self).current() < old(self).steps().len(),
        ensures
            Evaluation::finished(*old(self), *final(self), r, v@),
    {
        let i = self.cryptogram.current;
        assert(view_steps(self.cryptogram.steps@).len() == self.cryptogram.steps.len());
        let ghost before = self.cryptogram.steps@;
        let ghost vm = v@;
        self.pending = None;
        if i + 1 < self.cryptogram.steps.len() {
            let mut next = self.cryptogram.steps.remove(i + 1);
            next.payload = Some(v);
            self.cryptogram.steps.insert(i + 1, next);
            self.cryptogram.current = i + 1;
            assert(view_steps(self.cryptogram.steps@) =~= forwarded(view_steps(before), i as int, vm));
            Ok(Progress::Continue)
        } else {
            self.cryptogram.current = i + 1;
            Ok(Progress::Done(v))
        }
    }
}

} // verus!
