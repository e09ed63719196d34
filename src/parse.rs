use vstd::prelude::*;
use crate::translate::{view_langs, view_pairs, lemma_view_langs, lemma_view_pairs, Expr, Language};
use crate::text::{chars_of, push_char};

verus! {

/// Where the text stopped making sense, in characters from the start.
#[derive(Debug, PartialEq, Eq, Structural)]
pub struct ParseError {
    pub position: usize,
}

/// The outcome of a parser started somewhere in a text: the expression and
/// the position after it, or the position of the first character that did
/// not fit.
pub type Parsed = Result<(Expr, int), int>;

pub open spec fn is_ws(c: char) -> bool {
    c == ' ' || c == '\t' || c == '\n' || c == '\r'
}

pub open spec fn is_ident_start(c: char) -> bool {
    ('a' <= c && c <= 'z') || ('A' <= c && c <= 'Z') || c == '_'
}

pub open spec fn is_ident_char(c: char) -> bool {
    is_ident_start(c) || ('0' <= c && c <= '9')
}

/// The first position at or after `p` that holds no white space.
pub open spec fn skip_ws(s: Seq<char>, p: int) -> int
    decreases s.len() - p,
{
    if 0 <= p < s.len() && is_ws(s[p]) {
        skip_ws(s, p + 1)
    } else {
        p
    }
}

/// The first position at or after `p` that holds no identifier character.
pub open spec fn ident_end(s: Seq<char>, p: int) -> int
    decreases s.len() - p,
{
    if 0 <= p < s.len() && is_ident_char(s[p]) {
        ident_end(s, p + 1)
    } else {
        p
    }
}

/// Whether `lit` stands in `s` at `p`.
pub open spec fn lit_at(s: Seq<char>, p: int, lit: Seq<char>) -> bool {
    0 <= p && p + lit.len() <= s.len() && s.subrange(p, p + lit.len()) == lit
}

/// The position of the closing quote of a string whose body starts at `p`:
/// a backslash escapes a quote or a backslash.
pub open spec fn quote_end(s: Seq<char>, p: int) -> Option<int>
    decreases s.len() - p,
{
    if p < 0 || p >= s.len() {
        None
    } else if s[p] == '"' {
        Some(p)
    } else if s[p] == '\\' {
        if p + 1 < s.len() && (s[p + 1] == '"' || s[p + 1] == '\\') {
            quote_end(s, p + 2)
        } else {
            None
        }
    } else {
        quote_end(s, p + 1)
    }
}

/// One or more expressions separated by commas.
pub open spec fn p_lang(s: Seq<char>, p: int) -> Parsed
    decreases s.len() - p, 3int,
{
    let q = skip_ws(s, p);
    if p < 0 || q < p || q > s.len() {
        Err(p)
    } else {
        match p_thunk(s, q) {
            Ok((t, r)) => if r <= q || r > s.len() {
                Err(q)
            } else {
                p_more(s, r, seq![t])
            },
            Err(e) => Err(e),
        }
    }
}

/// The expressions that follow `acc` in a comma-separated list.
pub open spec fn p_more(s: Seq<char>, p: int, acc: Seq<Expr>) -> Parsed
    decreases s.len() - p, 0int,
{
    let q = skip_ws(s, p);
    if p < 0 || q < p || q > s.len() {
        Err(p)
    } else if q < s.len() && s[q] == ',' {
        let q2 = skip_ws(s, q + 1);
        if q2 <= q || q2 > s.len() {
            Err(q)
        } else {
            match p_thunk(s, q2) {
                Ok((t, r)) => if r <= q2 || r > s.len() {
                    Err(q2)
                } else {
                    p_more(s, r, acc.push(t))
                },
                Err(e) => Err(e),
            }
        }
    } else if acc.len() == 1 {
        Ok((acc[0], p))
    } else {
        Ok((Expr::Splat(acc), p))
    }
}

/// One expression, chosen by its first character.
pub open spec fn p_thunk(s: Seq<char>, p: int) -> Parsed
    decreases s.len() - p, 2int,
{
    if p < 0 || p >= s.len() {
        Err(p)
    } else if s[p] == '.' {
        if p + 1 < s.len() && is_ident_start(s[p + 1]) {
            p_at(s, p)
        } else {
            Ok((Expr::Identity, p + 1))
        }
    } else if s[p] == 'm' {
        p_map(s, p)
    } else if s[p] == '{' {
        p_object(s, p)
    } else if s[p] == 'g' {
        p_name(s, p, true)
    } else if s[p] == 's' {
        p_name(s, p, false)
    } else if s[p] == 'd' {
        p_default(s, p)
    } else if s[p] == 'f' {
        if lit_at(s, p, "flatten"@) {
            Ok((Expr::Flatten, p + 7))
        } else {
            Err(p)
        }
    } else {
        Err(p)
    }
}

/// `.key`, optionally followed by `| expression`.
pub open spec fn p_at(s: Seq<char>, p: int) -> Parsed
    decreases s.len() - p, 1int,
{
    if p < 0 || p + 1 >= s.len() {
        Err(p)
    } else {
        let e = ident_end(s, p + 1);
        let key = s.subrange(p + 1, e);
        let q = skip_ws(s, e);
        if e <= p + 1 || e > s.len() || q < e || q > s.len() {
            Err(p)
        } else if q < s.len() && s[q] == '|' {
            let q2 = skip_ws(s, q + 1);
            if q2 <= q || q2 > s.len() {
                Err(q)
            } else {
                match p_thunk(s, q2) {
                    Ok((t, r)) => Ok((Expr::Pipe(Box::new(Expr::At(key)), Box::new(t)), r)),
                    Err(err) => Err(err),
                }
            }
        } else {
            Ok((Expr::At(key), e))
        }
    }
}

/// `map(expression)`.
pub open spec fn p_map(s: Seq<char>, p: int) -> Parsed
    decreases s.len() - p, 1int,
{
    if !lit_at(s, p, "map("@) {
        Err(p)
    } else {
        let q = skip_ws(s, p + 4);
        if q < p + 4 || q > s.len() {
            Err(p)
        } else {
            match p_thunk(s, q) {
                Ok((t, r)) => {
                    let r2 = skip_ws(s, r);
                    if 0 <= r2 < s.len() && s[r2] == ')' {
                        Ok((Expr::Array(Box::new(t)), r2 + 1))
                    } else {
                        Err(r2)
                    }
                },
                Err(err) => Err(err),
            }
        }
    }
}

/// `{ "key": expression, ... }`.
pub open spec fn p_object(s: Seq<char>, p: int) -> Parsed
    decreases s.len() - p, 1int,
{
    let q = skip_ws(s, p + 1);
    if p < 0 || p >= s.len() || s[p] != '{' || q < p + 1 || q > s.len() {
        Err(p)
    } else if q < s.len() && s[q] == '}' {
        Ok((Expr::Object(Seq::empty()), q + 1))
    } else {
        p_fields(s, q, Seq::empty())
    }
}

/// The entries of an object from `p` on, after the entries `acc`.
pub open spec fn p_fields(s: Seq<char>, p: int, acc: Seq<(Seq<char>, Expr)>) -> Parsed
    decreases s.len() - p, 0int,
{
    if p < 0 || p >= s.len() || s[p] != '"' {
        Err(p)
    } else {
        match quote_end(s, p + 1) {
            None => Err(p),
            Some(close) => {
                let key = s.subrange(p + 1, close);
                let q = skip_ws(s, close + 1);
                if close < p + 1 || q < close + 1 || q >= s.len() || s[q] != ':' {
                    Err(q)
                } else {
                    let q2 = skip_ws(s, q + 1);
                    if q2 < q + 1 || q2 > s.len() {
                        Err(q)
                    } else {
                        match p_thunk(s, q2) {
                            Ok((t, r)) => {
                                let r2 = skip_ws(s, r);
                                let acc2 = acc.push((key, t));
                                if r <= q2 || r2 < r || r2 >= s.len() {
                                    Err(r2)
                                } else if s[r2] == '}' {
                                    Ok((Expr::Object(acc2), r2 + 1))
                                } else if s[r2] == ',' {
                                    let r3 = skip_ws(s, r2 + 1);
                                    if r3 <= r2 || r3 > s.len() {
                                        Err(r2)
                                    } else {
                                        p_fields(s, r3, acc2)
                                    }
                                } else {
                                    Err(r2)
                                }
                            },
                            Err(err) => Err(err),
                        }
                    }
                }
            },
        }
    }
}

/// `get("name")` where `get` holds, else `set("name")`.
pub open spec fn p_name(s: Seq<char>, p: int, get: bool) -> Parsed
    decreases s.len() - p, 1int,
{
    let lit = if get {
        "get("@
    } else {
        "set("@
    };
    if !lit_at(s, p, lit) {
        Err(p)
    } else {
        let q = skip_ws(s, p + 4);
        if q >= s.len() || s[q] != '"' {
            Err(q)
        } else {
            let e = ident_end(s, q + 1);
            let r = skip_ws(s, e + 1);
            if !(q + 1 < s.len() && is_ident_start(s[q + 1])) {
                Err(q + 1)
            } else if e >= s.len() || s[e] != '"' {
                Err(e)
            } else if r >= s.len() || s[r] != ')' {
                Err(r)
            } else {
                let key = s.subrange(q + 1, e);
                Ok((if get { Expr::Get(key) } else { Expr::SetVar(key) }, r + 1))
            }
        }
    }
}

/// `default(expressions)`.
pub open spec fn p_default(s: Seq<char>, p: int) -> Parsed
    decreases s.len() - p, 1int,
{
    if !lit_at(s, p, "default("@) || p < 0 || p + 8 > s.len() {
        Err(p)
    } else {
        match p_lang(s, p + 8) {
            Ok((t, r)) => {
                let r2 = skip_ws(s, r);
                if 0 <= r2 < s.len() && s[r2] == ')' {
                    Ok((Expr::Default(Box::new(t)), r2 + 1))
                } else {
                    Err(r2)
                }
            },
            Err(err) => Err(err),
        }
    }
}

/// A whole text: expressions with nothing but white space after them.
pub open spec fn parse_spec(s: Seq<char>) -> Result<Expr, int> {
    match p_lang(s, 0) {
        Ok((e, r)) => {
            let q = skip_ws(s, r);
            if q == s.len() {
                Ok(e)
            } else {
                Err(q)
            }
        },
        Err(p) => Err(p),
    }
}

pub open spec fn pview(r: Result<(Language, usize), usize>) -> Parsed {
    match r {
        Ok((l, p)) => Ok((l@, p as int)),
        Err(e) => Err(e as int),
    }
}

fn substring(s: &Vec<char>, from: usize, to: usize) -> (r: String)
    requires
        from <= to <= s.len(),
    ensures
        r@ == s@.subrange(from as int, to as int),
{
    let mut out = String::new();
    let mut i = from;
    while i < to
        invariant
            from <= i <= to <= s.len(),
            out@ == s@.subrange(from as int, i as int),
        decreases to - i,
    {
        push_char(&mut out, s[i]);
        assert(s@.subrange(from as int, i + 1) =~= s@.subrange(from as int, i as int).push(s@[i as int]));
        i = i + 1;
    }
    out
}

fn ws_char(c: char) -> (r: bool)
    ensures
        r == is_ws(c),
{
    c == ' ' || c == '\t' || c == '\n' || c == '\r'
}

fn ident_start_char(c: char) -> (r: bool)
    ensures
        r == is_ident_start(c),
{
    ('a' <= c && c <= 'z') || ('A' <= c && c <= 'Z') || c == '_'
}

fn ident_char(c: char) -> (r: bool)
    ensures
        r == is_ident_char(c),
{
    ident_start_char(c) || ('0' <= c && c <= '9')
}

fn skip_spaces(s: &Vec<char>, p: usize) -> (r: usize)
    requires
        p <= s.len(),
    ensures
        r as int == skip_ws(s@, p as int),
        p <= r <= s.len(),
{
    let mut i = p;
    while i < s.len() && ws_char(s[i])
        invariant
            p <= i <= s.len(),
            skip_ws(s@, i as int) == skip_ws(s@, p as int),
        decreases s.len() - i,
    {
        i = i + 1;
    }
    i
}

fn scan_ident(s: &Vec<char>, p: usize) -> (r: usize)
    requires
        p <= s.len(),
    ensures
        r as int == ident_end(s@, p as int),
        p <= r <= s.len(),
{
    let mut i = p;
    while i < s.len() && ident_char(s[i])
        invariant
            p <= i <= s.len(),
            ident_end(s@, i as int) == ident_end(s@, p as int),
        decreases s.len() - i,
    {
        i = i + 1;
    }
    i
}

fn scan_quote(s: &Vec<char>, p: usize) -> (r: Option<usize>)
    requires
        p <= s.len(),
    ensures
        match r {
            Some(c) => quote_end(s@, p as int) == Some(c as int) && p <= c < s.len(),
            None => quote_end(s@, p as int) is None,
        },
{
    let mut i = p;
    while i < s.len()
        invariant
            p <= i <= s.len() + 1,
            quote_end(s@, i as int) == quote_end(s@, p as int),
        decreases s.len() + 1 - i,
    {
        if s[i] == '"' {
            return Some(i);
        } else if s[i] == '\\' {
            if i + 1 < s.len() && (s[i + 1] == '"' || s[i + 1] == '\\') {
                i = i + 2;
            } else {
                return None;
            }
        } else {
            i = i + 1;
        }
    }
    None
}

fn has_lit(s: &Vec<char>, p: usize, lit: &Vec<char>) -> (r: bool)
    requires
        p <= s.len(),
    ensures
        r == lit_at(s@, p as int, lit@),
{
    if lit.len() > s.len() - p {
        return false;
    }
    let mut k: usize = 0;
    while k < lit.len()
        invariant
            k <= lit.len(),
            p + lit.len() <= s.len(),
            forall|j: int| 0 <= j < k ==> s@[p + j] == lit@[j],
        decreases lit.len() - k,
    {
        if s[p + k] != lit[k] {
            assert(s@.subrange(p as int, p + lit.len())[k as int] != lit@[k as int]);
            return false;
        }
        k = k + 1;
    }
    assert(s@.subrange(p as int, p + lit.len()) =~= lit@);
    true
}

fn x_lang(s: &Vec<char>, p: usize) -> (r: Result<(Language, usize), usize>)
    requires
        p <= s.len(),
    ensures
        pview(r) == p_lang(s@, p as int),
        r matches Ok((_, e)) ==> p < e <= s.len(),
    decreases s.len() - p, 3int,
{
    let q = skip_spaces(s, p);
    match x_thunk(s, q) {
        Ok((t, r)) => {
            let mut acc: Vec<Language> = Vec::new();
            acc.push(t);
            proof {
                lemma_view_langs(acc@);
                assert(view_langs(acc@) =~= seq![acc@[0]@]);
            }
            x_more(s, r, acc)
        },
        Err(e) => Err(e),
    }
}

fn x_more(s: &Vec<char>, p: usize, acc: Vec<Language>) -> (r: Result<(Language, usize), usize>)
    requires
        p <= s.len(),
        acc.len() >= 1,
    ensures
        pview(r) == p_more(s@, p as int, view_langs(acc@)),
        r matches Ok((_, e)) ==> p <= e <= s.len(),
    decreases s.len() - p, 0int,
{
    proof {
        lemma_view_langs(acc@);
    }
    let q = skip_spaces(s, p);
    if q < s.len() && s[q] == ',' {
        let q2 = skip_spaces(s, q + 1);
        match x_thunk(s, q2) {
            Ok((t, r)) => {
                let mut acc = acc;
                let ghost before = acc@;
                acc.push(t);
                assert(acc@.drop_last() =~= before);
                x_more(s, r, acc)
            },
            Err(e) => Err(e),
        }
    } else if acc.len() == 1 {
        let mut acc = acc;
        let t = acc.pop().unwrap();
        Ok((t, p))
    } else {
        Ok((Language::Splat(acc), p))
    }
}

fn x_thunk(s: &Vec<char>, p: usize) -> (r: Result<(Language, usize), usize>)
    requires
        p <= s.len(),
    ensures
        pview(r) == p_thunk(s@, p as int),
        r matches Ok((_, e)) ==> p < e <= s.len(),
    decreases s.len() - p, 2int,
{
    if p >= s.len() {
        Err(p)
    } else if s[p] == '.' {
        if p + 1 < s.len() && ident_start_char(s[p + 1]) {
            x_at(s, p)
        } else {
            Ok((Language::Identity, p + 1))
        }
    } else if s[p] == 'm' {
        x_map(s, p)
    } else if s[p] == '{' {
        x_object(s, p)
    } else if s[p] == 'g' {
        x_name(s, p, true)
    } else if s[p] == 's' {
        x_name(s, p, false)
    } else if s[p] == 'd' {
        x_default(s, p)
    } else if s[p] == 'f' {
        proof {
            reveal_strlit("flatten");
        }
        if has_lit(s, p, &chars_of("flatten")) {
            Ok((Language::Flatten, p + 7))
        } else {
            Err(p)
        }
    } else {
        Err(p)
    }
}

fn x_at(s: &Vec<char>, p: usize) -> (r: Result<(Language, usize), usize>)
    requires
        p + 1 < s.len(),
        is_ident_start(s@[p + 1]),
    ensures
        pview(r) == p_at(s@, p as int),
        r matches Ok((_, e)) ==> p < e <= s.len(),
    decreases s.len() - p, 1int,
{
    assert(ident_end(s@, p + 1) == ident_end(s@, p + 2));
    let e = scan_ident(s, p + 2);
    let key = substring(s, p + 1, e);
    let q = skip_spaces(s, e);
    if q < s.len() && s[q] == '|' {
        let q2 = skip_spaces(s, q + 1);
        match x_thunk(s, q2) {
            Ok((t, r)) => {
                let inner = Language::At(key);
                assert(inner@ == Expr::At(s@.subrange(p + 1, e as int)));
                let out = Language::Pipe(Box::new(inner), Box::new(t));
                assert(out@ == Expr::Pipe(Box::new(Expr::At(s@.subrange(p + 1, e as int))), Box::new(t@)));
                Ok((out, r))
            },
            Err(err) => Err(err),
        }
    } else {
        let out = Language::At(key);
        assert(out@ == Expr::At(s@.subrange(p + 1, e as int)));
        assert(p_at(s@, p as int) == Ok::<(Expr, int), int>((out@, e as int)));
        Ok((out, e))
    }
}

fn x_map(s: &Vec<char>, p: usize) -> (r: Result<(Language, usize), usize>)
    requires
        p < s.len(),
    ensures
        pview(r) == p_map(s@, p as int),
        r matches Ok((_, e)) ==> p < e <= s.len(),
    decreases s.len() - p, 1int,
{
    proof {
        reveal_strlit("map(");
    }
    if !has_lit(s, p, &chars_of("map(")) {
        return Err(p);
    }
    let q = skip_spaces(s, p + 4);
    match x_thunk(s, q) {
        Ok((t, r)) => {
            let r2 = skip_spaces(s, r);
            if r2 < s.len() && s[r2] == ')' {
                Ok((Language::Array(Box::new(t)), r2 + 1))
            } else {
                Err(r2)
            }
        },
        Err(err) => Err(err),
    }
}

fn x_object(s: &Vec<char>, p: usize) -> (r: Result<(Language, usize), usize>)
    requires
        p < s.len(),
    ensures
        pview(r) == p_object(s@, p as int),
        r matches Ok((_, e)) ==> p < e <= s.len(),
    decreases s.len() - p, 1int,
{
    if s[p] != '{' {
        return Err(p);
    }
    let q = skip_spaces(s, p + 1);
    if q < s.len() && s[q] == '}' {
        let r = Language::Object(Vec::new());
        proof {
            lemma_view_pairs(Seq::<(String, Language)>::empty());
        }
        assert(r@ == Expr::Object(Seq::empty()));
        Ok((r, q + 1))
    } else {
        proof {
            lemma_view_pairs(Seq::<(String, Language)>::empty());
        }
        x_fields(s, q, Vec::new())
    }
}

fn x_fields(s: &Vec<char>, p: usize, acc: Vec<(String, Language)>) -> (r: Result<
    (Language, usize),
    usize,
>)
    requires
        p <= s.len(),
    ensures
        pview(r) == p_fields(s@, p as int, view_pairs(acc@)),
        r matches Ok((_, e)) ==> p < e <= s.len(),
    decreases s.len() - p, 0int,
{
    if p >= s.len() || s[p] != '"' {
        return Err(p);
    }
    match scan_quote(s, p + 1) {
        None => Err(p),
        Some(close) => {
            let key = substring(s, p + 1, close);
            let q = skip_spaces(s, close + 1);
            if q >= s.len() || s[q] != ':' {
                return Err(q);
            }
            let q2 = skip_spaces(s, q + 1);
            match x_thunk(s, q2) {
                Ok((t, r)) => {
                    let r2 = skip_spaces(s, r);
                    let mut acc = acc;
                    let ghost before = acc@;
                    acc.push((key, t));
                    assert(acc@.drop_last() =~= before);
                    if r2 >= s.len() {
                        Err(r2)
                    } else if s[r2] == '}' {
                        Ok((Language::Object(acc), r2 + 1))
                    } else if s[r2] == ',' {
                        let r3 = skip_spaces(s, r2 + 1);
                        x_fields(s, r3, acc)
                    } else {
                        Err(r2)
                    }
                },
                Err(err) => Err(err),
            }
        },
    }
}

fn x_name(s: &Vec<char>, p: usize, get: bool) -> (r: Result<(Language, usize), usize>)
    requires
        p < s.len(),
    ensures
        pview(r) == p_name(s@, p as int, get),
        r matches Ok((_, e)) ==> p < e <= s.len(),
    decreases s.len() - p, 1int,
{
    proof {
        reveal_strlit("get(");
        reveal_strlit("set(");
    }
    let found = if get {
        has_lit(s, p, &chars_of("get("))
    } else {
        has_lit(s, p, &chars_of("set("))
    };
    if !found {
        return Err(p);
    }
    let q = skip_spaces(s, p + 4);
    if q >= s.len() || s[q] != '"' {
        return Err(q);
    }
    if !(q + 1 < s.len() && ident_start_char(s[q + 1])) {
        return Err(q + 1);
    }
    let e = scan_ident(s, q + 1);
    if e >= s.len() || s[e] != '"' {
        return Err(e);
    }
    let r = skip_spaces(s, e + 1);
    if r >= s.len() || s[r] != ')' {
        return Err(r);
    }
    let key = substring(s, q + 1, e);
    if get {
        Ok((Language::Get(key), r + 1))
    } else {
        Ok((Language::SetVar(key), r + 1))
    }
}

fn x_default(s: &Vec<char>, p: usize) -> (r: Result<(Language, usize), usize>)
    requires
        p < s.len(),
    ensures
        pview(r) == p_default(s@, p as int),
        r matches Ok((_, e)) ==> p < e <= s.len(),
    decreases s.len() - p, 1int,
{
    proof {
        reveal_strlit("default(");
    }
    if !has_lit(s, p, &chars_of("default(")) {
        return Err(p);
    }
    match x_lang(s, p + 8) {
        Ok((t, r)) => {
            let r2 = skip_spaces(s, r);
            if r2 < s.len() && s[r2] == ')' {
                Ok((Language::Default(Box::new(t)), r2 + 1))
            } else {
                Err(r2)
            }
        },
        Err(err) => Err(err),
    }
}

/// Parses one or more comma-separated expressions at the start of `input`,
/// and hands back the text that follows them.
pub fn parse_language(input: &str) -> (r: Result<(String, Language), ParseError>)
    ensures
        match p_lang(input@, 0) {
            Ok((e, pos)) => r matches Ok((rest, l)) && l@ == e && rest@ == input@.subrange(
                pos,
                input@.len() as int,
            ),
            Err(pos) => r == Err::<(String, Language), ParseError>(ParseError { position: pos as usize }),
        },
{
    let s = chars_of(input);
    match x_lang(&s, 0) {
        Ok((l, pos)) => Ok((substring(&s, pos, s.len()), l)),
        Err(pos) => Err(ParseError { position: pos }),
    }
}

/// The result of `p_at` where the text starts with `.` and a key.
pub open spec fn p_at_start(s: Seq<char>) -> Parsed {
    if s.len() > 1 && s[0] == '.' && is_ident_start(s[1]) {
        p_at(s, 0)
    } else {
        Err(0)
    }
}

/// Parses `.key`, with an optional `| expression` after it, at the start of
/// `input`, and hands back the text that follows.
pub fn parse_at(input: &str) -> (r: Result<(String, Language), ParseError>)
    ensures
        match p_at_start(input@) {
            Ok((e, pos)) => r matches Ok((rest, l)) && l@ == e && rest@ == input@.subrange(
                pos,
                input@.len() as int,
            ),
            Err(pos) => r == Err::<(String, Language), ParseError>(ParseError { position: pos as usize }),
        },
{
    let s = chars_of(input);
    if s.len() > 1 && s[0] == '.' && ident_start_char(s[1]) {
        match x_at(&s, 0) {
            Ok((l, pos)) => Ok((substring(&s, pos, s.len()), l)),
            Err(pos) => Err(ParseError { position: pos }),
        }
    } else {
        Err(ParseError { position: 0 })
    }
}

/// Parses a whole transform: expressions with nothing but white space after them.
pub fn parse(input: &str) -> (r: Result<Language, ParseError>)
    ensures
        match parse_spec(input@) {
            Ok(e) => r matches Ok(l) && l@ == e,
            Err(pos) => r == Err::<Language, ParseError>(ParseError { position: pos as usize }),
        },
{
    let s = chars_of(input);
    match x_lang(&s, 0) {
        Ok((l, pos)) => {
            let q = skip_spaces(&s, pos);
            if q == s.len() {
                Ok(l)
            } else {
                Err(ParseError { position: q })
            }
        },
        Err(pos) => Err(ParseError { position: pos }),
    }
}

} // verus!
