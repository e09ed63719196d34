use vstd::prelude::*;
use crate::parse::{
    ident_end, is_ident_char, is_ident_start, is_ws, lit_at, p_at, p_default, p_fields, p_lang,
    p_map, p_more, p_name, p_object, p_thunk, parse_spec, quote_end, skip_ws,
};
use crate::text::{push_char, push_str};
use crate::translate::{lemma_view_langs, lemma_view_pairs, view_langs, view_pairs, Expr, Language};

verus! {

/// A key that can follow `.` or stand in `get("…")`: a letter or `_`, then
/// letters, digits and `_`.
pub open spec fn ident_ok(k: Seq<char>) -> bool {
    &&& k.len() > 0
    &&& is_ident_start(k[0])
    &&& forall|i: int| 0 <= i < k.len() ==> is_ident_char(#[trigger] k[i])
}

/// An object key that a quoted string can carry as it stands: its escapes
/// are whole and its first unescaped quote is the closing one.
pub open spec fn key_ok(k: Seq<char>) -> bool {
    quote_end(k.push('"'), 0) == Some(k.len() as int)
}

/// The expressions that the parser can produce in a position that takes one
/// expression.
pub open spec fn thunk_ok(e: Expr) -> bool
    decreases e, 0nat,
{
    match e {
        Expr::At(k) => ident_ok(k),
        Expr::Pipe(a, t) => match *a {
            Expr::At(k) => ident_ok(k) && thunk_ok(*t),
            _ => false,
        },
        Expr::Array(t) => thunk_ok(*t),
        Expr::Object(ps) => forall|i: int|
            0 <= i < ps.len() ==> key_ok(#[trigger] ps[i].0) && thunk_ok(ps[i].1),
        Expr::Get(k) => ident_ok(k),
        Expr::SetVar(k) => ident_ok(k),
        Expr::Default(l) => lang_ok(*l),
        Expr::Flatten => true,
        Expr::Identity => true,
        _ => false,
    }
}

/// The expressions that the parser can produce from a whole text.
pub open spec fn lang_ok(e: Expr) -> bool
    decreases e, 1nat,
{
    match e {
        Expr::Splat(ts) => ts.len() >= 2 && forall|i: int| 0 <= i < ts.len() ==> thunk_ok(#[trigger] ts[i]),
        _ => thunk_ok(e),
    }
}

/// The text of one expression, written the canonical way.
pub open spec fn print_thunk(e: Expr) -> Seq<char>
    decreases e, 0nat, 0nat,
{
    match e {
        Expr::At(k) => seq!['.'] + k,
        Expr::Pipe(a, t) => match *a {
            Expr::At(k) => seq!['.'] + k + seq![' ', '|', ' '] + print_thunk(*t),
            _ => Seq::empty(),
        },
        Expr::Array(t) => "map("@ + print_thunk(*t) + seq![')'],
        Expr::Object(ps) => if ps.len() == 0 {
            seq!['{', '}']
        } else {
            seq!['{'] + print_fields(ps, 0) + seq!['}']
        },
        Expr::Get(k) => "get("@ + seq!['"'] + k + seq!['"', ')'],
        Expr::SetVar(k) => "set("@ + seq!['"'] + k + seq!['"', ')'],
        Expr::Default(l) => "default("@ + print_lang(*l) + seq![')'],
        Expr::Flatten => "flatten"@,
        Expr::Identity => seq!['.'],
        _ => Seq::empty(),
    }
}

/// The entries of an object from the `i`-th on, separated by `, `.
pub open spec fn print_fields(ps: Seq<(Seq<char>, Expr)>, i: nat) -> Seq<char>
    decreases ps, 1nat, ps.len() - i,
{
    if i >= ps.len() {
        Seq::empty()
    } else {
        let entry = seq!['"'] + ps[i as int].0 + seq!['"', ':', ' '] + print_thunk(ps[i as int].1);
        if i + 1 < ps.len() {
            entry + seq![',', ' '] + print_fields(ps, i + 1)
        } else {
            entry
        }
    }
}

/// The expressions of a splat from the `i`-th on, separated by `, `.
pub open spec fn print_list(ts: Seq<Expr>, i: nat) -> Seq<char>
    decreases ts, 1nat, ts.len() - i,
{
    if i >= ts.len() {
        Seq::empty()
    } else if i + 1 < ts.len() {
        print_thunk(ts[i as int]) + seq![',', ' '] + print_list(ts, i + 1)
    } else {
        print_thunk(ts[i as int])
    }
}

/// The text of a whole transform, written the canonical way.
pub open spec fn print_lang(e: Expr) -> Seq<char>
    decreases e, 1nat, 0nat,
{
    match e {
        Expr::Splat(ts) => if ts.len() >= 2 {
            print_list(ts, 0)
        } else {
            Seq::empty()
        },
        _ => print_thunk(e),
    }
}

/// What may follow one expression: no identifier character right after
/// it, then, past white space, the end or one of `,`, `)` and `}`.
pub open spec fn ends_thunk(s: Seq<char>, q: int) -> bool {
    &&& 0 <= q <= s.len()
    &&& (q == s.len() || !is_ident_char(s[q]))
    &&& (skip_ws(s, q) == s.len() || s[skip_ws(s, q)] == ',' || s[skip_ws(s, q)] == ')' || s[
        skip_ws(s, q)
    ] == '}')
}

/// What may follow a comma-separated list: as above, but no comma.
pub open spec fn ends_lang(s: Seq<char>, q: int) -> bool {
    ends_thunk(s, q) && (skip_ws(s, q) == s.len() || s[skip_ws(s, q)] != ',')
}

proof fn lemma_skip_bounds(s: Seq<char>, q: int)
    requires
        0 <= q <= s.len(),
    ensures
        q <= skip_ws(s, q) <= s.len(),
    decreases s.len() - q,
{
    if q < s.len() && is_ws(s[q]) {
        lemma_skip_bounds(s, q + 1);
    }
}

proof fn lemma_char(s: Seq<char>, p: int, t: Seq<char>, i: int)
    requires
        lit_at(s, p, t),
        0 <= i < t.len(),
    ensures
        s[p + i] == t[i],
{
    assert(s.subrange(p, p + t.len())[i] == s[p + i]);
}

proof fn lemma_part(s: Seq<char>, p: int, t: Seq<char>, i: int, j: int)
    requires
        lit_at(s, p, t),
        0 <= i <= j <= t.len(),
    ensures
        lit_at(s, p + i, t.subrange(i, j)),
{
    assert(s.subrange(p + i, p + j) =~= t.subrange(i, j));
}

proof fn lemma_ident_end(s: Seq<char>, p: int, k: Seq<char>, i: int)
    requires
        lit_at(s, p, k),
        forall|j: int| 0 <= j < (k.len() as int) ==> is_ident_char(#[trigger] k[j]),
        p + (k.len() as int) == s.len() || !is_ident_char(s[p + (k.len() as int)]),
        0 <= i <= (k.len() as int),
    ensures
        ident_end(s, p + i) == p + (k.len() as int),
    decreases (k.len() as int) - i,
{
    if i < (k.len() as int) {
        lemma_char(s, p, k, i);
        lemma_ident_end(s, p, k, i + 1);
    }
}

proof fn lemma_quote(s: Seq<char>, p: int, t: Seq<char>, i: int, m: int)
    requires
        lit_at(s, p, t),
        0 <= i,
        quote_end(t, i) == Some(m),
    ensures
        quote_end(s, p + i) == Some(p + m),
    decreases t.len() - i,
{
    if i < t.len() {
        lemma_char(s, p, t, i);
        if t[i] == '"' {
        } else if t[i] == '\\' {
            lemma_char(s, p, t, i + 1);
            lemma_quote(s, p, t, i + 2, m);
        } else {
            lemma_quote(s, p, t, i + 1, m);
        }
    }
}

/// A printed expression is not empty and starts with no white space.
proof fn lemma_first(e: Expr)
    requires
        thunk_ok(e),
    ensures
        print_thunk(e).len() > 0,
        !is_ws(print_thunk(e)[0]),
{
    reveal_strlit("map(");
    reveal_strlit("get(");
    reveal_strlit("set(");
    reveal_strlit("default(");
    reveal_strlit("flatten");
    match e {
        Expr::Pipe(a, t) => {
            if let Expr::At(k) = *a {
            }
        },
        _ => {},
    }
}

proof fn lemma_first_lang(e: Expr)
    requires
        lang_ok(e),
    ensures
        print_lang(e).len() > 0,
        !is_ws(print_lang(e)[0]),
{
    match e {
        Expr::Splat(ts) => {
            lemma_first(ts[0]);
            if 1 < ts.len() {
                assert(print_list(ts, 0) == print_thunk(ts[0]) + seq![',', ' '] + print_list(ts, 1));
            }
        },
        _ => {
            lemma_first(e);
        },
    }
}

/// The parser reads a printed expression back, and stops right after it.
proof fn lemma_thunk(s: Seq<char>, p: int, e: Expr)
    requires
        thunk_ok(e),
        lit_at(s, p, print_thunk(e)),
        ends_thunk(s, p + print_thunk(e).len()),
    ensures
        p_thunk(s, p) == Ok::<(Expr, int), int>((e, p + print_thunk(e).len())),
    decreases e, 0nat, 1int,
{
    reveal_strlit("flatten");
    let pt = print_thunk(e);
    lemma_first(e);
    lemma_char(s, p, pt, 0);
    match e {
        Expr::At(k) => lemma_case_at(s, p, e),
        Expr::Pipe(a, t) => lemma_case_pipe(s, p, e),
        Expr::Array(t) => lemma_case_array(s, p, e),
        Expr::Object(ps) => lemma_case_object(s, p, e),
        Expr::Get(k) => {
            reveal_strlit("get(");
            lemma_name(s, p, k, true);
        },
        Expr::SetVar(k) => {
            reveal_strlit("set(");
            lemma_name(s, p, k, false);
        },
        Expr::Default(l) => lemma_case_default(s, p, e),
        Expr::Flatten => {
            assert(lit_at(s, p, "flatten"@));
        },
        Expr::Identity => {},
        _ => {},
    }
}

proof fn lemma_case_at(s: Seq<char>, p: int, e: Expr)
    requires
        e is At,
        thunk_ok(e),
        lit_at(s, p, print_thunk(e)),
        ends_thunk(s, p + print_thunk(e).len()),
    ensures
        p_thunk(s, p) == Ok::<(Expr, int), int>((e, p + print_thunk(e).len())),
    decreases e, 0nat, 0int,
{
    let k = e->At_0;
    let pt = print_thunk(e);
    let end = p + (pt.len() as int);
    lemma_skip_bounds(s, end);
    lemma_char(s, p, pt, 0);
    lemma_char(s, p, pt, 1);
    lemma_part(s, p, pt, 1, (pt.len() as int));
    assert(pt.subrange(1, (pt.len() as int)) =~= k);
    lemma_ident_end(s, p + 1, k, 0);
    assert(s.subrange(p + 1, end) =~= k);
    assert(p_at(s, p) == Ok::<(Expr, int), int>((e, end)));
}

proof fn lemma_case_pipe(s: Seq<char>, p: int, e: Expr)
    requires
        e is Pipe,
        thunk_ok(e),
        lit_at(s, p, print_thunk(e)),
        ends_thunk(s, p + print_thunk(e).len()),
    ensures
        p_thunk(s, p) == Ok::<(Expr, int), int>((e, p + print_thunk(e).len())),
    decreases e, 0nat, 0int,
{
    let a = *e->Pipe_0;
    let t = *e->Pipe_1;
    let k = a->At_0;
    let pt = print_thunk(e);
    let end = p + (pt.len() as int);
    let pk = print_thunk(t);
    let kl = k.len() as int;
    let e1 = p + 1 + kl;
    assert(pt == seq!['.'] + k + seq![' ', '|', ' '] + pk);
    lemma_char(s, p, pt, 0);
    lemma_char(s, p, pt, 1);
    lemma_part(s, p, pt, 1, 1 + kl);
    assert(pt.subrange(1, 1 + kl) =~= k);
    lemma_char(s, p, pt, 1 + kl);
    lemma_char(s, p, pt, 2 + kl);
    lemma_char(s, p, pt, 3 + kl);
    lemma_ident_end(s, p + 1, k, 0);
    assert(s.subrange(p + 1, e1) =~= k);
    lemma_first(t);
    lemma_part(s, p, pt, 4 + kl, (pt.len() as int));
    assert(pt.subrange(4 + kl, (pt.len() as int)) =~= pk);
    lemma_char(s, p, pt, 4 + kl);
    assert(skip_ws(s, e1 + 1) == e1 + 1);
    assert(skip_ws(s, e1) == e1 + 1);
    assert(skip_ws(s, e1 + 3) == e1 + 3);
    assert(skip_ws(s, e1 + 2) == e1 + 3);
    lemma_thunk(s, e1 + 3, t);
    assert(p_at(s, p) == Ok::<(Expr, int), int>((e, end)));
}

proof fn lemma_case_array(s: Seq<char>, p: int, e: Expr)
    requires
        e is Array,
        thunk_ok(e),
        lit_at(s, p, print_thunk(e)),
        ends_thunk(s, p + print_thunk(e).len()),
    ensures
        p_thunk(s, p) == Ok::<(Expr, int), int>((e, p + print_thunk(e).len())),
    decreases e, 0nat, 0int,
{
    reveal_strlit("map(");
    let t = *e->Array_0;
    let pt = print_thunk(e);
    let end = p + (pt.len() as int);
    let pk = print_thunk(t);
    let kl = pk.len() as int;
    lemma_char(s, p, pt, 0);
    lemma_part(s, p, pt, 0, 4);
    assert(pt.subrange(0, 4) =~= "map("@);
    lemma_part(s, p, pt, 4, 4 + kl);
    assert(pt.subrange(4, 4 + kl) =~= pk);
    lemma_first(t);
    lemma_char(s, p, pt, 4);
    lemma_char(s, p, pt, 4 + kl);
    assert(skip_ws(s, p + 4) == p + 4);
    assert(skip_ws(s, p + 4 + kl) == p + 4 + kl);
    lemma_thunk(s, p + 4, t);
    assert(p_map(s, p) == Ok::<(Expr, int), int>((e, end)));
}

proof fn lemma_case_object(s: Seq<char>, p: int, e: Expr)
    requires
        e is Object,
        thunk_ok(e),
        lit_at(s, p, print_thunk(e)),
        ends_thunk(s, p + print_thunk(e).len()),
    ensures
        p_thunk(s, p) == Ok::<(Expr, int), int>((e, p + print_thunk(e).len())),
    decreases e, 0nat, 0int,
{
    let ps = e->Object_0;
    let pt = print_thunk(e);
    let end = p + (pt.len() as int);
    lemma_char(s, p, pt, 0);
    lemma_char(s, p, pt, 1);
    if ps.len() == 0 {
        assert(skip_ws(s, p + 1) == p + 1);
        assert(ps =~= Seq::<(Seq<char>, Expr)>::empty());
        assert(p_object(s, p) == Ok::<(Expr, int), int>((e, end)));
    } else {
        let pf = print_fields(ps, 0);
        lemma_part(s, p, pt, 1, (pt.len() as int));
        assert(pt.subrange(1, (pt.len() as int)) =~= pf + seq!['}']);
        assert(key_ok(ps[0].0));
        lemma_fields(s, p + 1, ps, 0);
        assert(pf[0] == '"');
        assert(skip_ws(s, p + 1) == p + 1);
        assert(ps.subrange(0, 0) =~= Seq::<(Seq<char>, Expr)>::empty());
        assert(p_object(s, p) == Ok::<(Expr, int), int>((e, end)));
    }
}

proof fn lemma_case_default(s: Seq<char>, p: int, e: Expr)
    requires
        e is Default,
        thunk_ok(e),
        lit_at(s, p, print_thunk(e)),
        ends_thunk(s, p + print_thunk(e).len()),
    ensures
        p_thunk(s, p) == Ok::<(Expr, int), int>((e, p + print_thunk(e).len())),
    decreases e, 0nat, 0int,
{
    reveal_strlit("default(");
    let l = *e->Default_0;
    let pt = print_thunk(e);
    let end = p + (pt.len() as int);
    let pl = print_lang(l);
    let ll = pl.len() as int;
    lemma_char(s, p, pt, 0);
    lemma_part(s, p, pt, 0, 8);
    assert(pt.subrange(0, 8) =~= "default("@);
    lemma_part(s, p, pt, 8, 8 + ll);
    assert(pt.subrange(8, 8 + ll) =~= pl);
    lemma_first_lang(l);
    lemma_char(s, p, pt, 8 + ll);
    assert(skip_ws(s, p + 8 + ll) == p + 8 + ll);
    lemma_lang(s, p + 8, l);
    assert(p_default(s, p) == Ok::<(Expr, int), int>((e, end)));
}

proof fn lemma_name(s: Seq<char>, p: int, k: Seq<char>, get: bool)
    requires
        ident_ok(k),
        lit_at(s, p, print_thunk(if get { Expr::Get(k) } else { Expr::SetVar(k) })),
        ends_thunk(s, p + print_thunk(if get { Expr::Get(k) } else { Expr::SetVar(k) }).len()),
    ensures
        p_name(s, p, get) == Ok::<(Expr, int), int>(
            (
                if get {
                    Expr::Get(k)
                } else {
                    Expr::SetVar(k)
                },
                p + print_thunk(if get { Expr::Get(k) } else { Expr::SetVar(k) }).len(),
            ),
        ),
{
    reveal_strlit("get(");
    reveal_strlit("set(");
    let e = if get {
        Expr::Get(k)
    } else {
        Expr::SetVar(k)
    };
    let pt = print_thunk(e);
    let lit = if get {
        "get("@
    } else {
        "set("@
    };
    assert(pt == lit + seq!['"'] + k + seq!['"', ')']);
    lemma_part(s, p, pt, 0, 4);
    assert(pt.subrange(0, 4) =~= lit);
    lemma_char(s, p, pt, 4);
    lemma_char(s, p, pt, 5);
    lemma_part(s, p, pt, 5, 5 + (k.len() as int));
    assert(pt.subrange(5, 5 + (k.len() as int)) =~= k);
    lemma_char(s, p, pt, 5 + (k.len() as int));
    lemma_char(s, p, pt, 6 + (k.len() as int));
    lemma_ident_end(s, p + 5, k, 0);
    assert(skip_ws(s, p + 4) == p + 4);
    assert(skip_ws(s, p + 6 + (k.len() as int)) == p + 6 + (k.len() as int));
    assert(s.subrange(p + 5, p + 5 + (k.len() as int)) =~= k);
}

/// The parser reads printed object entries back, from the `i`-th on.
proof fn lemma_fields(s: Seq<char>, pos: int, ps: Seq<(Seq<char>, Expr)>, i: nat)
    requires
        i < ps.len(),
        forall|j: int| 0 <= j < ps.len() ==> key_ok(#[trigger] ps[j].0) && thunk_ok(ps[j].1),
        lit_at(s, pos, print_fields(ps, i) + seq!['}']),
    ensures
        p_fields(s, pos, ps.subrange(0, i as int)) == Ok::<(Expr, int), int>(
            (Expr::Object(ps), pos + print_fields(ps, i).len() + 1),
        ),
    decreases ps, 1nat, ps.len() - i,
{
    let t = s;
    let full = print_fields(ps, i) + seq!['}'];
    let k = ps[i as int].0;
    let body = ps[i as int].1;
    let pb = print_thunk(body);
    assert(key_ok(k) && thunk_ok(body));
    let entry = seq!['"'] + k + seq!['"', ':', ' '] + pb;
    let close = pos + 1 + (k.len() as int);
    let q = close + 1;
    let r = q + 2 + (pb.len() as int);
    assert(full.subrange(0, entry.len() as int) =~= entry);
    lemma_char(s, pos, full, 0);
    // The key and its closing quote.
    lemma_part(s, pos, full, 1, 2 + (k.len() as int));
    assert(full.subrange(1, 2 + (k.len() as int)) =~= k.push('"'));
    lemma_quote(s, pos + 1, k.push('"'), 0, k.len() as int);
    assert(s.subrange(pos + 1, close) =~= k) by {
        lemma_part(s, pos, full, 1, 1 + (k.len() as int));
        assert(full.subrange(1, 1 + (k.len() as int)) =~= k);
    }
    lemma_char(s, pos, full, 2 + (k.len() as int));
    lemma_char(s, pos, full, 3 + (k.len() as int));
    assert(skip_ws(s, close + 1) == q);
    // The value.
    lemma_first(body);
    lemma_char(s, pos, full, 4 + (k.len() as int));
    assert(skip_ws(s, q + 2) == q + 2);
    assert(skip_ws(s, q + 1) == q + 2);
    lemma_part(s, pos, full, 4 + (k.len() as int), 4 + (k.len() as int) + (pb.len() as int));
    assert(full.subrange(4 + (k.len() as int), 4 + (k.len() as int) + (pb.len() as int)) =~= pb);
    lemma_char(s, pos, full, 4 + (k.len() as int) + (pb.len() as int));
    assert(skip_ws(s, r) == r);
    lemma_thunk(s, q + 2, body);
    let acc2 = ps.subrange(0, i as int).push((k, body));
    assert(acc2 =~= ps.subrange(0, i + 1 as int));
    if i + 1 < ps.len() {
        let rest = print_fields(ps, i + 1);
        assert(print_fields(ps, i) == entry + seq![',', ' '] + rest);
        lemma_char(s, pos, full, entry.len() as int);
        lemma_char(s, pos, full, (entry.len() as int) + 1);
        lemma_part(s, pos, full, (entry.len() as int) + 2, full.len() as int);
        assert(full.subrange((entry.len() as int) + 2, full.len() as int) =~= rest + seq!['}']);
        assert((rest.len() as int) > 0);
        lemma_fields(s, r + 2, ps, i + 1);
        lemma_first(ps[i + 1 as int].1);
        assert(rest[0] == '"');
        lemma_char(s, pos, full, (entry.len() as int) + 2);
        assert(skip_ws(s, r + 2) == r + 2);
        assert(skip_ws(s, r + 1) == r + 2);
    } else {
        assert(print_fields(ps, i) == entry);
        assert(ps.subrange(0, i + 1 as int) =~= ps);
    }
}

/// The parser reads a printed list back, from the `i`-th expression on.
proof fn lemma_more(s: Seq<char>, pos: int, ts: Seq<Expr>, i: nat)
    requires
        1 <= i <= ts.len(),
        ts.len() >= 2 || i == 1,
        forall|j: int| 0 <= j < ts.len() ==> thunk_ok(#[trigger] ts[j]),
        i < ts.len() ==> lit_at(s, pos, seq![',', ' '] + print_list(ts, i)),
        ends_lang(s, pos + if i < ts.len() { 2 + print_list(ts, i).len() } else { 0 }),
        0 <= pos <= s.len(),
    ensures
        p_more(s, pos, ts.subrange(0, i as int)) == Ok::<(Expr, int), int>(
            (
                if ts.len() == 1 {
                    ts[0]
                } else {
                    Expr::Splat(ts)
                },
                pos + if i < ts.len() { 2 + print_list(ts, i).len() } else { 0 },
            ),
        ),
    decreases ts, 1nat, ts.len() - i,
{
    lemma_skip_bounds(s, pos);
    if i == ts.len() {
        assert(ts.subrange(0, i as int) =~= ts);
    } else {
        let full = seq![',', ' '] + print_list(ts, i);
        let pk = print_thunk(ts[i as int]);
        let r = pos + 2 + (pk.len() as int);
        lemma_char(s, pos, full, 0);
        lemma_char(s, pos, full, 1);
        lemma_first(ts[i as int]);
        lemma_char(s, pos, full, 2);
        assert(skip_ws(s, pos) == pos);
        assert(skip_ws(s, pos + 2) == pos + 2);
        assert(skip_ws(s, pos + 1) == pos + 2);
        lemma_part(s, pos, full, 2, 2 + (pk.len() as int));
        assert(full.subrange(2, 2 + (pk.len() as int)) =~= pk);
        let acc2 = ts.subrange(0, i as int).push(ts[i as int]);
        assert(acc2 =~= ts.subrange(0, i + 1 as int));
        if i + 1 < ts.len() {
            let rest = print_list(ts, i + 1);
            assert(print_list(ts, i) == pk + seq![',', ' '] + rest);
            lemma_char(s, pos, full, 2 + (pk.len() as int));
            lemma_first(ts[i + 1 as int]);
            lemma_char(s, pos, full, 4 + (pk.len() as int));
            lemma_part(s, pos, full, 2 + (pk.len() as int), full.len() as int);
            assert(full.subrange(2 + (pk.len() as int), full.len() as int) =~= seq![',', ' '] + rest);
            assert(skip_ws(s, r) == r);
            lemma_thunk(s, pos + 2, ts[i as int]);
            lemma_more(s, r, ts, i + 1);
        } else {
            assert(print_list(ts, i) == pk);
            lemma_thunk(s, pos + 2, ts[i as int]);
            lemma_more(s, r, ts, i + 1);
        }
    }
}

/// The parser reads a printed transform back, and stops right after it.
proof fn lemma_lang(s: Seq<char>, p: int, e: Expr)
    requires
        lang_ok(e),
        lit_at(s, p, print_lang(e)),
        ends_lang(s, p + print_lang(e).len()),
    ensures
        p_lang(s, p) == Ok::<(Expr, int), int>((e, p + print_lang(e).len())),
    decreases e, 1nat, 0int,
{
    let pl = print_lang(e);
    lemma_first_lang(e);
    lemma_char(s, p, pl, 0);
    assert(skip_ws(s, p) == p);
    match e {
        Expr::Splat(ts) => {
            let head = print_thunk(ts[0]);
            let r = p + (head.len() as int);
            assert(pl == head + seq![',', ' '] + print_list(ts, 1));
            lemma_part(s, p, pl, 0, head.len() as int);
            assert(pl.subrange(0, head.len() as int) =~= head);
            lemma_char(s, p, pl, head.len() as int);
            lemma_skip_bounds(s, r);
            assert(skip_ws(s, r) == r);
            assert(thunk_ok(ts[0]));
            lemma_thunk(s, p, ts[0]);
            lemma_part(s, p, pl, head.len() as int, pl.len() as int);
            assert(pl.subrange(head.len() as int, pl.len() as int) =~= seq![',', ' '] + print_list(ts, 1));
            lemma_more(s, r, ts, 1);
            assert(ts.subrange(0, 1) =~= seq![ts[0]]);
        },
        _ => {
            lemma_thunk(s, p, e);
            lemma_skip_bounds(s, p + (pl.len() as int));
        },
    }
}

/// Parsing the canonical text of an expression that the parser can produce
/// gives the expression back.
pub proof fn law_parse_print(e: Expr)
    requires
        lang_ok(e),
    ensures
        parse_spec(print_lang(e)) == Ok::<Expr, int>(e),
{
    let s = print_lang(e);
    assert(s.subrange(0, s.len() as int) =~= s);
    lemma_lang(s, 0, e);
}

fn write_thunk(l: &Language, out: &mut String)
    ensures
        final(out)@ == old(out)@ + print_thunk(l@),
    decreases l, 0nat,
{
    let ghost start = out@;
    match l {
        Language::At(k) => {
            push_char(out, '.');
            push_str(out, k.as_str());
            assert(out@ =~= start + print_thunk(l@));
        },
        Language::Pipe(a, t) => match &**a {
            Language::At(k) => {
                push_char(out, '.');
                push_str(out, k.as_str());
                push_str(out, " | ");
                proof {
                    reveal_strlit(" | ");
                    assert(" | "@ =~= seq![' ', '|', ' ']);
                }
                let ghost mid = out@;
                write_thunk(t, out);
                assert(a@ == Expr::At(k@));
                assert(out@ =~= start + print_thunk(l@));
            },
            _ => {
                assert(print_thunk(l@) =~= Seq::<char>::empty());
                assert(out@ =~= start + print_thunk(l@));
            },
        },
        Language::Array(t) => {
            push_str(out, "map(");
            write_thunk(t, out);
            push_char(out, ')');
            assert(out@ =~= start + print_thunk(l@));
        },
        Language::Object(pairs) => {
            proof {
                lemma_view_pairs(pairs@);
            }
            let ghost pm = view_pairs(pairs@);
            if pairs.len() == 0 {
                push_char(out, '{');
                push_char(out, '}');
                assert(out@ =~= start + print_thunk(l@));
            } else {
                push_char(out, '{');
                let ghost opened = out@;
                let mut i: usize = 0;
                while i < pairs.len()
                    invariant
                        *l == Language::Object(*pairs),
                        pm == view_pairs(pairs@),
                        pm.len() == pairs.len(),
                        forall|j: int|
                            0 <= j < pairs.len() ==> #[trigger] pm[j] == (pairs[j].0@, pairs[j].1@),
                        i <= pairs.len(),
                        out@ + print_fields(pm, i as nat) == opened + print_fields(pm, 0),
                    decreases pairs.len() - i,
                {
                    proof {
                        assert(decreases_to!(*l => l->Object_0));
                        assert(decreases_to!(l->Object_0 => pairs[i as int]));
                        assert(decreases_to!(pairs[i as int] => pairs[i as int].1));
                    }
                    let ghost before = out@;
                    push_char(out, '"');
                    push_str(out, pairs[i].0.as_str());
                    push_char(out, '"');
                    push_char(out, ':');
                    push_char(out, ' ');
                    write_thunk(&pairs[i].1, out);
                    let ghost entry = seq!['"'] + pm[i as int].0 + seq!['"', ':', ' '] + print_thunk(
                        pm[i as int].1,
                    );
                    assert(out@ =~= before + entry);
                    if i + 1 < pairs.len() {
                        push_char(out, ',');
                        push_char(out, ' ');
                        assert(print_fields(pm, i as nat) == entry + seq![',', ' '] + print_fields(
                            pm,
                            (i + 1) as nat,
                        ));
                        assert(out@ + print_fields(pm, (i + 1) as nat) =~= before + print_fields(
                            pm,
                            i as nat,
                        ));
                    } else {
                        assert(print_fields(pm, i as nat) == entry);
                        assert(print_fields(pm, (i + 1) as nat) =~= Seq::<char>::empty());
                        assert(out@ + print_fields(pm, (i + 1) as nat) =~= before + print_fields(
                            pm,
                            i as nat,
                        ));
                    }
                    i = i + 1;
                }
                assert(print_fields(pm, pairs.len() as nat) =~= Seq::<char>::empty());
                assert(out@ =~= opened + print_fields(pm, 0));
                push_char(out, '}');
                assert(out@ =~= start + print_thunk(l@));
            }
        },
        Language::Get(k) => {
            push_str(out, "get(");
            push_char(out, '"');
            push_str(out, k.as_str());
            push_char(out, '"');
            push_char(out, ')');
            assert(out@ =~= start + print_thunk(l@));
        },
        Language::SetVar(k) => {
            push_str(out, "set(");
            push_char(out, '"');
            push_str(out, k.as_str());
            push_char(out, '"');
            push_char(out, ')');
            assert(out@ =~= start + print_thunk(l@));
        },
        Language::Default(inner) => {
            push_str(out, "default(");
            write_lang(inner, out);
            push_char(out, ')');
            assert(out@ =~= start + print_thunk(l@));
        },
        Language::Flatten => {
            push_str(out, "flatten");
        },
        Language::Identity => {
            push_char(out, '.');
            assert(out@ =~= start + print_thunk(l@));
        },
        _ => {
            assert(print_thunk(l@) =~= Seq::<char>::empty());
            assert(out@ =~= start + print_thunk(l@));
        },
    }
}

fn write_lang(l: &Language, out: &mut String)
    ensures
        final(out)@ == old(out)@ + print_lang(l@),
    decreases l, 1nat,
{
    let ghost start = out@;
    match l {
        Language::Splat(subs) => {
            proof {
                lemma_view_langs(subs@);
            }
            let ghost sm = view_langs(subs@);
            if subs.len() >= 2 {
                let mut i: usize = 0;
                while i < subs.len()
                    invariant
                        *l == Language::Splat(*subs),
                        sm == view_langs(subs@),
                        sm.len() == subs.len(),
                        forall|j: int| 0 <= j < subs.len() ==> #[trigger] sm[j] == subs[j]@,
                        i <= subs.len(),
                        out@ + print_list(sm, i as nat) == start + print_list(sm, 0),
                    decreases subs.len() - i,
                {
                    proof {
                        assert(decreases_to!(*l => l->Splat_0));
                        assert(decreases_to!(l->Splat_0 => subs[i as int]));
                    }
                    let ghost before = out@;
                    write_thunk(&subs[i], out);
                    let ghost piece = print_thunk(sm[i as int]);
                    if i + 1 < subs.len() {
                        push_char(out, ',');
                        push_char(out, ' ');
                        assert(print_list(sm, i as nat) == piece + seq![',', ' '] + print_list(
                            sm,
                            (i + 1) as nat,
                        ));
                        assert(out@ + print_list(sm, (i + 1) as nat) =~= before + print_list(
                            sm,
                            i as nat,
                        ));
                    } else {
                        assert(print_list(sm, i as nat) == piece);
                        assert(print_list(sm, (i + 1) as nat) =~= Seq::<char>::empty());
                        assert(out@ + print_list(sm, (i + 1) as nat) =~= before + print_list(
                            sm,
                            i as nat,
                        ));
                    }
                    i = i + 1;
                }
                assert(print_list(sm, subs.len() as nat) =~= Seq::<char>::empty());
                assert(out@ =~= start + print_lang(l@));
            } else {
                assert(print_lang(l@) =~= Seq::<char>::empty());
                assert(out@ =~= start + print_lang(l@));
            }
        },
        _ => {
            write_thunk(l, out);
        },
    }
}

/// The canonical text of a transform. For every transform the parser can
/// produce, parsing this text gives the transform back.
pub fn print_language(l: &Language) -> (r: String)
    ensures
        r@ == print_lang(l@),
{
    let mut out = String::new();
    write_lang(l, &mut out);
    assert(out@ =~= print_lang(l@));
    out
}

} // verus!
