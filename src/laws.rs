use vstd::prelude::*;
use crate::json::JsonModel;
use crate::translate::{
    eval, eval_all, eval_fields, eval_items, get_crumb, index_crumb, Expr, Pad, StepErrorModel,
};

verus! {

/// Evaluation depends on nothing but the expression, the input and the
/// scratchpad it starts from: two runs from equal scratchpads agree.
pub proof fn law_deterministic(e: Expr, v: JsonModel, s1: Pad, s2: Pad, emits: bool)
    requires
        s1 == s2,
    ensures
        eval(e, v, s1, emits) == eval(e, v, s2, emits),
{
}

/// `Identity` hands its input back and leaves the scratchpad alone.
pub proof fn law_identity(v: JsonModel, s: Pad, emits: bool)
    ensures
        eval(Expr::Identity, v, s, emits) == (Ok::<JsonModel, StepErrorModel>(v), s),
{
}

/// Piping is associative.
pub proof fn law_pipe_associative(a: Expr, b: Expr, c: Expr, v: JsonModel, s: Pad, emits: bool)
    ensures
        eval(
            Expr::Pipe(Box::new(Expr::Pipe(Box::new(a), Box::new(b))), Box::new(c)),
            v,
            s,
            emits,
        ) == eval(Expr::Pipe(Box::new(a), Box::new(Expr::Pipe(Box::new(b), Box::new(c)))), v, s, emits),
{
    let ab = Expr::Pipe(Box::new(a), Box::new(b));
    let bc = Expr::Pipe(Box::new(b), Box::new(c));
    let (r, s1) = eval(a, v, s, emits);
    match r {
        Ok(x) => {
            assert(eval(ab, v, s, emits) == eval(b, x, s1, emits));
            let (r2, s2) = eval(b, x, s1, emits);
            match r2 {
                Ok(y) => {
                    assert(eval(bc, x, s1, emits) == eval(c, y, s2, emits));
                },
                Err(err) => {
                    assert(eval(bc, x, s1, emits) == (Err::<JsonModel, StepErrorModel>(err), s2));
                },
            }
        },
        Err(err) => {
            assert(eval(ab, v, s, emits) == (Err::<JsonModel, StepErrorModel>(err), s1));
        },
    }
}

/// A constant at the end of a pipe gives the constant, once the part before it succeeds.
pub proof fn law_const_absorbs(a: Expr, k: JsonModel, v: JsonModel, s: Pad, emits: bool)
    requires
        eval(a, v, s, emits).0 is Ok,
    ensures
        eval(Expr::Pipe(Box::new(a), Box::new(Expr::Const(k))), v, s, emits).0
            == Ok::<JsonModel, StepErrorModel>(k),
{
    let (r, s1) = eval(a, v, s, emits);
    assert(eval(Expr::Const(k), r->Ok_0, s1, emits).0 == Ok::<JsonModel, StepErrorModel>(k));
}

/// Storing the input under a name and reading the name back gives the input.
pub proof fn law_set_then_get(name: Seq<char>, v: JsonModel, s: Pad, emits: bool)
    ensures
        eval(Expr::Splat(seq![Expr::SetVar(name), Expr::Get(name)]), v, s, emits).0 == Ok::<
            JsonModel,
            StepErrorModel,
        >(v),
{
    let subs = seq![Expr::SetVar(name), Expr::Get(name)];
    assert(eval_all(subs, 0, v, s, emits).0 is Ok);
    let s1 = eval_all(subs, 1, v, s, emits).1;
    assert(eval_all(subs, 1, v, s, emits) == eval(Expr::SetVar(name), v, s, emits));
    assert(s1.vars.contains_key(name) && s1.vars[name] == v);
    assert(eval_all(subs, 2, v, s, emits) == eval(Expr::Get(name), v, s1, emits));
}

/// `h` names a path through `e`, from its root to a node that can fail:
/// a key of an object, an index of an array, or the failing node's own name.
pub open spec fn walk(e: Expr, h: Seq<Seq<char>>) -> bool
    decreases e,
{
    match e {
        Expr::At(k) => h == seq![k],
        Expr::Array(sub) => h == seq!["<Not an array>"@] || (h.len() > 0 && (exists|i: nat|
            h[0] == #[trigger] index_crumb(i)) && walk(*sub, h.drop_first())),
        Expr::Object(pairs) => exists|j: int|
            0 <= j < pairs.len() && h.len() > 0 && h[0] == #[trigger] pairs[j].0 && walk(
                pairs[j].1,
                h.drop_first(),
            ),
        Expr::Splat(subs) => h == seq!["<Empty splat>"@] || exists|j: int|
            0 <= j < subs.len() && walk(#[trigger] subs[j], h),
        Expr::Pipe(a, b) => walk(*a, h) || walk(*b, h),
        Expr::Default(sub) => walk(*sub, h),
        Expr::Get(name) => h == seq![get_crumb(name)],
        Expr::Join(_) => h.len() == 0,
        Expr::Flatten => h == seq!["flatten"@],
        _ => false,
    }
}

/// Every failure carries a path from the root expression to where it failed.
pub proof fn law_breadcrumbs(e: Expr, v: JsonModel, s: Pad, emits: bool)
    ensures
        eval(e, v, s, emits).0 is Err ==> walk(e, eval(e, v, s, emits).0->Err_0.history),
    decreases e, 0nat, 0nat,
{
    match e {
        Expr::Array(sub) => {
            if let JsonModel::Array(items) = v {
                lemma_items_walk(*sub, items, items.len(), s, emits);
                let r = eval_items(*sub, items, items.len(), s, emits);
                if r.0 is Err {
                    let h = r.0->Err_0.history;
                    assert(eval(e, v, s, emits).0 == Err::<JsonModel, StepErrorModel>(r.0->Err_0));
                    assert(exists|i: nat| h[0] == #[trigger] index_crumb(i));
                    assert(walk(*sub, h.drop_first()));
                    assert(walk(e, h));
                } else {
                    assert(eval(e, v, s, emits).0 is Ok);
                }
            } else {
                assert(eval(e, v, s, emits).0 == Err::<JsonModel, StepErrorModel>(
                    crate::translate::fail("<Not an array>"@),
                ));
                assert(walk(e, seq!["<Not an array>"@]));
            }
        },
        Expr::Object(pairs) => {
            lemma_fields_walk(pairs, pairs.len(), v, s, emits);
            let r = eval_fields(pairs, pairs.len(), v, s, emits);
            if r.0 is Err {
                let h = r.0->Err_0.history;
                assert(eval(e, v, s, emits).0 == Err::<JsonModel, StepErrorModel>(r.0->Err_0));
                let j = choose|j: int|
                    0 <= j < pairs.len() && h.len() > 0 && h[0] == pairs[j].0 && #[trigger] walk(
                        pairs[j].1,
                        h.drop_first(),
                    );
                assert(h[0] == pairs[j].0);
                assert(walk(e, h));
            }
        },
        Expr::Splat(subs) => {
            if subs.len() > 0 {
                lemma_all_walk(subs, subs.len(), v, s, emits);
                assert(eval(e, v, s, emits) == eval_all(subs, subs.len(), v, s, emits));
                let r = eval_all(subs, subs.len(), v, s, emits);
                if r.0 is Err {
                    let j = choose|j: int|
                        0 <= j < subs.len() && #[trigger] walk(subs[j], r.0->Err_0.history);
                    assert(walk(subs[j], r.0->Err_0.history));
                }
            } else {
                assert(walk(e, seq!["<Empty splat>"@]));
            }
        },
        Expr::Pipe(a, b) => {
            law_breadcrumbs(*a, v, s, emits);
            let (r, s1) = eval(*a, v, s, emits);
            if let Ok(x) = r {
                law_breadcrumbs(*b, x, s1, emits);
            }
        },
        Expr::Default(sub) => {
            law_breadcrumbs(*sub, JsonModel::Null, s, emits);
        },
        Expr::At(k) => {
            if eval(e, v, s, emits).0 is Err {
                assert(eval(e, v, s, emits).0->Err_0.history =~= seq![k]);
            }
        },
        _ => {},
    }
}

proof fn lemma_items_walk(sub: Expr, items: Seq<JsonModel>, n: nat, s: Pad, emits: bool)
    ensures
        eval_items(sub, items, n, s, emits).0 is Err ==> (
        exists|i: nat| #[trigger] index_crumb(i) == eval_items(sub, items, n, s, emits).0->Err_0.history[0])
            && eval_items(sub, items, n, s, emits).0->Err_0.history.len() > 0 && walk(
            sub,
            eval_items(sub, items, n, s, emits).0->Err_0.history.drop_first(),
        ),
    decreases sub, 1nat, n,
{
    if n > 0 && n <= items.len() {
        lemma_items_walk(sub, items, (n - 1) as nat, s, emits);
        let (r, s1) = eval_items(sub, items, (n - 1) as nat, s, emits);
        if let Ok(xs) = r {
            law_breadcrumbs(sub, items[n - 1], s1, emits);
            let (r2, s2) = eval(sub, items[n - 1], s1, emits);
            if let Err(err) = r2 {
                let h = seq![index_crumb((n - 1) as nat)] + err.history;
                assert(h.drop_first() =~= err.history);
                assert(h[0] == index_crumb((n - 1) as nat));
            }
        }
    }
}

proof fn lemma_fields_walk(pairs: Seq<(Seq<char>, Expr)>, n: nat, v: JsonModel, s: Pad, emits: bool)
    ensures
        eval_fields(pairs, n, v, s, emits).0 is Err ==> exists|j: int|
            0 <= j < pairs.len() && eval_fields(pairs, n, v, s, emits).0->Err_0.history.len() > 0
                && eval_fields(pairs, n, v, s, emits).0->Err_0.history[0] == pairs[j].0
                && #[trigger] walk(
                pairs[j].1,
                eval_fields(pairs, n, v, s, emits).0->Err_0.history.drop_first(),
            ),
    decreases pairs, 1nat, n,
{
    if n > 0 && n <= pairs.len() {
        lemma_fields_walk(pairs, (n - 1) as nat, v, s, emits);
        let (r, s1) = eval_fields(pairs, (n - 1) as nat, v, s, emits);
        if let Ok(es) = r {
            law_breadcrumbs(pairs[n - 1].1, v, s1, emits);
            let (r2, s2) = eval(pairs[n - 1].1, v, s1, emits);
            if let Err(err) = r2 {
                let h = seq![pairs[n - 1].0] + err.history;
                assert(h.drop_first() =~= err.history);
                assert(eval_fields(pairs, n, v, s, emits).0->Err_0.history == h);
                assert(walk(pairs[n - 1].1, h.drop_first()));
            }
        }
    }
}

proof fn lemma_all_walk(subs: Seq<Expr>, n: nat, v: JsonModel, s: Pad, emits: bool)
    ensures
        eval_all(subs, n, v, s, emits).0 is Err ==> exists|j: int|
            0 <= j < subs.len() && #[trigger] walk(
                subs[j],
                eval_all(subs, n, v, s, emits).0->Err_0.history,
            ),
    decreases subs, 1nat, n,
{
    if n > 0 && n <= subs.len() {
        lemma_all_walk(subs, (n - 1) as nat, v, s, emits);
        let (r, s1) = eval_all(subs, (n - 1) as nat, v, s, emits);
        if let Ok(_) = r {
            law_breadcrumbs(subs[n - 1], v, s1, emits);
        }
    }
}

} // verus!
