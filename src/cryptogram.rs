use vstd::prelude::*;
use crate::json::{Json, JsonModel};
use crate::translate::{Expr, Language};

verus! {

/// One backend call of a cryptogram, with the transforms around it. A step
/// with neither service nor method makes no call: it only reshapes its payload.
#[derive(Debug)]
pub struct CryptogramStep {
    pub service: Option<String>,
    pub method: Option<String>,
    pub payload: Option<Json>,
    pub preflight: Option<Language>,
    pub postflight: Option<Language>,
    pub memoization_prefix: Option<String>,
    pub headers: Vec<(String, String)>,
}

pub struct StepModel {
    pub service: Option<Seq<char>>,
    pub method: Option<Seq<char>>,
    pub payload: Option<JsonModel>,
    pub preflight: Option<Expr>,
    pub postflight: Option<Expr>,
    pub memoization_prefix: Option<Seq<char>>,
    pub headers: Seq<(Seq<char>, Seq<char>)>,
}

pub open spec fn opt_text(o: Option<String>) -> Option<Seq<char>> {
    match o {
        Some(s) => Some(s@),
        None => None,
    }
}

pub open spec fn opt_value(o: Option<Json>) -> Option<JsonModel> {
    match o {
        Some(v) => Some(v@),
        None => None,
    }
}

pub open spec fn opt_expr(o: Option<Language>) -> Option<Expr> {
    match o {
        Some(l) => Some(l@),
        None => None,
    }
}

pub open spec fn view_headers(h: Seq<(String, String)>) -> Seq<(Seq<char>, Seq<char>)> {
    Seq::new(h.len(), |i: int| (h[i].0@, h[i].1@))
}

impl View for CryptogramStep {
    type V = StepModel;

    open spec fn view(&self) -> StepModel {
        StepModel {
            service: opt_text(self.service),
            method: opt_text(self.method),
            payload: opt_value(self.payload),
            preflight: opt_expr(self.preflight),
            postflight: opt_expr(self.postflight),
            memoization_prefix: opt_text(self.memoization_prefix),
            headers: view_headers(self.headers@),
        }
    }
}

/// A linear sequence of steps, and the index of the step that runs next.
#[derive(Debug)]
pub struct Cryptogram {
    pub current: usize,
    pub steps: Vec<CryptogramStep>,
}

pub open spec fn view_steps(steps: Seq<CryptogramStep>) -> Seq<StepModel> {
    Seq::new(steps.len(), |i: int| steps[i]@)
}

impl CryptogramStep {
    /// Starts a step that calls `method` of `service`.
    pub fn build(service: &str, method: &str) -> (r: CryptogramStepNeedsPayload)
        ensures
            r.service() == Some(service@),
            r.method() == Some(method@),
    {
        CryptogramStepNeedsPayload {
            service: Some(service.to_owned()),
            method: Some(method.to_owned()),
        }
    }

    /// Starts a step that makes no call and only reshapes its payload.
    pub fn inert() -> (r: CryptogramStepNeedsPayload)
        ensures
            r.service() is None,
            r.method() is None,
    {
        CryptogramStepNeedsPayload { service: None, method: None }
    }
}

/// A step under construction that still needs its payload.
pub struct CryptogramStepNeedsPayload {
    service: Option<String>,
    method: Option<String>,
}

impl CryptogramStepNeedsPayload {
    pub closed spec fn service(&self) -> Option<Seq<char>> {
        opt_text(self.service)
    }

    pub closed spec fn method(&self) -> Option<Seq<char>> {
        opt_text(self.method)
    }

    /// Gives the step its payload.
    pub fn payload(self, payload: Json) -> (r: CryptogramStepBuilder)
        ensures
            r.step@ == (StepModel {
                service: self.service(),
                method: self.method(),
                payload: Some(payload@),
                preflight: None,
                postflight: None,
                memoization_prefix: None,
                headers: Seq::empty(),
            }),
    {
        let r = CryptogramStepBuilder {
            step: CryptogramStep {
                service: self.service,
                method: self.method,
                payload: Some(payload),
                preflight: None,
                postflight: None,
                memoization_prefix: None,
                headers: Vec::new(),
            },
        };
        assert(view_headers(r.step.headers@) =~= Seq::empty());
        r
    }
}

/// A step under construction.
pub struct CryptogramStepBuilder {
    pub step: CryptogramStep,
}

impl CryptogramStepBuilder {
    /// Sets the transform applied to the payload before the call.
    pub fn preflight(self, lang: Language) -> (r: CryptogramStepBuilder)
        ensures
            r.step@ == (StepModel { preflight: Some(lang@), ..self.step@ }),
    {
        let mut step = self.step;
        step.preflight = Some(lang);
        CryptogramStepBuilder { step }
    }

    /// Sets the transform applied to the response.
    pub fn postflight(self, lang: Language) -> (r: CryptogramStepBuilder)
        ensures
            r.step@ == (StepModel { postflight: Some(lang@), ..self.step@ }),
    {
        let mut step = self.step;
        step.postflight = Some(lang);
        CryptogramStepBuilder { step }
    }

    /// Sets the headers sent with the call.
    pub fn headers(self, headers: Vec<(String, String)>) -> (r: CryptogramStepBuilder)
        ensures
            r.step@ == (StepModel { headers: view_headers(headers@), ..self.step@ }),
    {
        let mut step = self.step;
        step.headers = headers;
        CryptogramStepBuilder { step }
    }

    /// Turns on memoization of the step under `prefix`.
    pub fn memoization_prefix(self, prefix: String) -> (r: CryptogramStepBuilder)
        ensures
            r.step@ == (StepModel { memoization_prefix: Some(prefix@), ..self.step@ }),
    {
        let mut step = self.step;
        step.memoization_prefix = Some(prefix);
        CryptogramStepBuilder { step }
    }

    /// The finished step.
    pub fn finish(self) -> (r: CryptogramStep)
        ensures
            r@ == self.step@,
    {
        self.step
    }
}

} // verus!
