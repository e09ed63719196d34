use vstd::prelude::*;
use vstd::utf8::encode_utf8;
use crate::json::{lemma_view_entries, lemma_view_items, view_entries, Json, JsonModel, Number};
use crate::text::{chars_of, hex, push_digits};

verus! {

/// `a` comes before `b` in lexicographic order of their characters.
pub open spec fn key_lt(a: Seq<char>, b: Seq<char>) -> bool
    decreases a.len(),
{
    if a.len() == 0 {
        b.len() > 0
    } else if b.len() == 0 {
        false
    } else if a[0] != b[0] {
        (a[0] as u32) < (b[0] as u32)
    } else {
        key_lt(a.drop_first(), b.drop_first())
    }
}

/// The eight bytes of `n`, most significant first.
pub open spec fn be_bytes(n: u64) -> Seq<u8> {
    Seq::new(8, |i: int| ((n >> ((7 - i) * 8) as u64) & 0xff) as u8)
}

/// The integer form that a number is hashed in.
pub open spec fn number_bits(n: Number) -> u64 {
    match n {
        Number::PosInt(u) => u,
        Number::NegInt(i) => i as u64,
        Number::Float(bits) => bits,
    }
}

/// `x` placed among the positions `sorted` before the first one whose key
/// comes after the key at `x`.
pub open spec fn insert_idx(es: Seq<(Seq<char>, JsonModel)>, sorted: Seq<int>, x: int) -> Seq<int>
    decreases sorted.len(),
{
    if sorted.len() == 0 {
        seq![x]
    } else if key_lt(es[x].0, es[sorted[0]].0) {
        seq![x] + sorted
    } else {
        seq![sorted[0]] + insert_idx(es, sorted.drop_first(), x)
    }
}

/// The positions of the first `n` entries of an object, ordered by key.
pub open spec fn key_order(es: Seq<(Seq<char>, JsonModel)>, n: nat) -> Seq<int>
    decreases n,
{
    if n == 0 {
        Seq::empty()
    } else {
        insert_idx(es, key_order(es, (n - 1) as nat), n - 1)
    }
}

/// The byte stream that stands for a JSON value when it is hashed: strings as
/// their UTF-8 bytes, null as 0, booleans as 1 or 0, numbers as eight bytes,
/// arrays element by element, objects key by key in key order, each key's
/// bytes followed by its value's.
pub open spec fn canonical(v: JsonModel) -> Seq<u8>
    decreases v, 0nat,
{
    match v {
        JsonModel::String(s) => encode_utf8(s),
        JsonModel::Null => seq![0u8],
        JsonModel::Bool(b) => seq![if b { 1u8 } else { 0u8 }],
        JsonModel::Number(n) => be_bytes(number_bits(n)),
        JsonModel::Array(items) => canonical_items(items, items.len()),
        JsonModel::Object(es) => canonical_entries(es, key_order(es, es.len()), es.len()),
    }
}

/// The bytes of the first `n` of `items`.
pub open spec fn canonical_items(items: Seq<JsonModel>, n: nat) -> Seq<u8>
    decreases items, n,
{
    if n == 0 || n > items.len() {
        Seq::empty()
    } else {
        canonical_items(items, (n - 1) as nat) + canonical(items[n - 1])
    }
}

/// The bytes of the entries at the first `n` positions of `order`, each key's
/// bytes followed by its value's.
pub open spec fn canonical_entries(es: Seq<(Seq<char>, JsonModel)>, order: Seq<int>, n: nat) -> Seq<
    u8,
>
    decreases es, n,
{
    if n == 0 || n > order.len() || !(0 <= order[n - 1] < es.len()) {
        Seq::empty()
    } else {
        let e = es[order[n - 1]];
        canonical_entries(es, order, (n - 1) as nat) + encode_utf8(e.0) + canonical(e.1)
    }
}

pub open spec fn ints(v: Seq<usize>) -> Seq<int> {
    Seq::new(v.len(), |k: int| v[k] as int)
}

proof fn lemma_insert_idx(es: Seq<(Seq<char>, JsonModel)>, sorted: Seq<int>, x: int, j: int)
    requires
        0 <= j <= sorted.len(),
        forall|k: int| 0 <= k < j ==> !key_lt(es[x].0, #[trigger] es[sorted[k]].0),
        j < sorted.len() ==> key_lt(es[x].0, es[sorted[j]].0),
    ensures
        insert_idx(es, sorted, x) == sorted.insert(j, x),
    decreases sorted.len(),
{
    if sorted.len() == 0 {
        assert(sorted.insert(j, x) =~= seq![x]);
    } else if j == 0 {
        assert(sorted.insert(j, x) =~= seq![x] + sorted);
    } else {
        let rest = sorted.drop_first();
        assert forall|k: int| 0 <= k < j - 1 implies !key_lt(es[x].0, #[trigger] es[rest[k]].0) by {
            assert(rest[k] == sorted[k + 1]);
        }
        if j - 1 < rest.len() {
            assert(rest[j - 1] == sorted[j]);
        }
        assert(!key_lt(es[x].0, es[sorted[0]].0));
        lemma_insert_idx(es, rest, x, j - 1);
        assert(sorted.insert(j, x) =~= seq![sorted[0]] + rest.insert(j - 1, x));
    }
}

fn less_than(a: &Vec<char>, b: &Vec<char>) -> (r: bool)
    ensures
        r == key_lt(a@, b@),
{
    let mut i: usize = 0;
    assert(a@.subrange(0, a.len() as int) =~= a@);
    assert(b@.subrange(0, b.len() as int) =~= b@);
    while i < a.len() && i < b.len() && a[i] == b[i]
        invariant
            i <= a.len(),
            i <= b.len(),
            key_lt(a@, b@) == key_lt(
                a@.subrange(i as int, a.len() as int),
                b@.subrange(i as int, b.len() as int),
            ),
        decreases a.len() - i,
    {
        let ghost sa = a@.subrange(i as int, a.len() as int);
        let ghost sb = b@.subrange(i as int, b.len() as int);
        assert(sa.drop_first() =~= a@.subrange(i + 1, a.len() as int));
        assert(sb.drop_first() =~= b@.subrange(i + 1, b.len() as int));
        i = i + 1;
    }
    let ghost sa = a@.subrange(i as int, a.len() as int);
    let ghost sb = b@.subrange(i as int, b.len() as int);
    if i == a.len() {
        i < b.len()
    } else if i == b.len() {
        false
    } else {
        assert(sa[0] == a@[i as int] && sb[0] == b@[i as int]);
        (a[i] as u32) < (b[i] as u32)
    }
}

/// The positions of the entries of an object, ordered by key.
fn sort_positions(entries: &Vec<(String, Json)>) -> (r: Vec<usize>)
    ensures
        ints(r@) == key_order(view_entries(entries@), entries.len() as nat),
        forall|k: int| 0 <= k < r.len() ==> #[trigger] r@[k] < entries.len(),
        r.len() == entries.len(),
{
    let ghost es = view_entries(entries@);
    proof {
        lemma_view_entries(entries@);
    }
    let mut keys: Vec<Vec<char>> = Vec::new();
    let mut i: usize = 0;
    while i < entries.len()
        invariant
            i <= entries.len(),
            keys.len() == i,
            forall|k: int| 0 <= k < i ==> #[trigger] keys@[k]@ == entries@[k].0@,
        decreases entries.len() - i,
    {
        keys.push(chars_of(entries[i].0.as_str()));
        i = i + 1;
    }
    let mut order: Vec<usize> = Vec::new();
    let mut x: usize = 0;
    while x < entries.len()
        invariant
            x <= entries.len(),
            es == view_entries(entries@),
            es.len() == entries.len(),
            forall|k: int| 0 <= k < entries.len() ==> #[trigger] es[k] == (entries@[k].0@, entries@[k].1@),
            keys.len() == entries.len(),
            forall|k: int| 0 <= k < entries.len() ==> #[trigger] keys@[k]@ == entries@[k].0@,
            order.len() == x,
            forall|k: int| 0 <= k < order.len() ==> #[trigger] order@[k] < x,
            ints(order@) == key_order(es, x as nat),
        decreases entries.len() - x,
    {
        let mut j: usize = 0;
        while j < order.len() && !less_than(&keys[x], &keys[order[j]])
            invariant
                j <= order.len(),
                x < entries.len(),
                es.len() == entries.len(),
                forall|k: int| 0 <= k < entries.len() ==> #[trigger] es[k] == (entries@[k].0@, entries@[k].1@),
                keys.len() == entries.len(),
                forall|k: int| 0 <= k < entries.len() ==> #[trigger] keys@[k]@ == entries@[k].0@,
                forall|k: int| 0 <= k < order.len() ==> #[trigger] order@[k] < x,
                forall|k: int|
                    0 <= k < j ==> !key_lt(es[x as int].0, #[trigger] es[ints(order@)[k]].0),
            decreases order.len() - j,
        {
            j = j + 1;
        }
        proof {
            if j < order.len() {
                assert(key_lt(es[x as int].0, es[ints(order@)[j as int]].0));
            }
            lemma_insert_idx(es, ints(order@), x as int, j as int);
        }
        let ghost before = order@;
        order.insert(j, x);
        assert(ints(order@) =~= ints(before).insert(j as int, x as int));
        x = x + 1;
    }
    order
}

/// Appends the eight bytes of `n`, most significant first.
fn push_be(out: &mut Vec<u8>, n: u64)
    ensures
        final(out)@ == old(out)@ + be_bytes(n),
{
    let ghost start = out@;
    let mut i: u64 = 0;
    while i < 8
        invariant
            i <= 8,
            out@ == start + be_bytes(n).subrange(0, i as int),
        decreases 8 - i,
    {
        out.push(((n >> ((7 - i) * 8)) & 0xff) as u8);
        assert(be_bytes(n).subrange(0, i + 1) =~= be_bytes(n).subrange(0, i as int).push(
            ((n >> ((7 - i) * 8) as u64) & 0xff) as u8,
        ));
        i = i + 1;
    }
    assert(be_bytes(n).subrange(0, 8) =~= be_bytes(n));
}

/// Appends the UTF-8 bytes of `s`.
fn push_utf8(out: &mut Vec<u8>, s: &String)
    ensures
        final(out)@ == old(out)@ + encode_utf8(s@),
{
    let bytes = s.as_str().as_bytes();
    let ghost start = out@;
    let mut i: usize = 0;
    while i < bytes.len()
        invariant
            i <= bytes.len(),
            bytes@ == encode_utf8(s@),
            out@ == start + bytes@.subrange(0, i as int),
        decreases bytes.len() - i,
    {
        out.push(bytes[i]);
        assert(bytes@.subrange(0, i + 1) =~= bytes@.subrange(0, i as int).push(bytes@[i as int]));
        i = i + 1;
    }
    assert(bytes@.subrange(0, bytes.len() as int) =~= bytes@);
}

/// Appends the canonical bytes of `v`.
fn write_canonical(v: &Json, out: &mut Vec<u8>)
    ensures
        final(out)@ == old(out)@ + canonical(v@),
    decreases v,
{
    match v {
        Json::String(s) => push_utf8(out, s),
        Json::Null => {
            out.push(0u8);
            assert(out@ =~= old(out)@ + seq![0u8]);
        },
        Json::Bool(b) => {
            out.push(if *b { 1u8 } else { 0u8 });
            assert(out@ =~= old(out)@ + seq![if *b { 1u8 } else { 0u8 }]);
        },
        Json::Number(n) => {
            let bits = match n {
                Number::PosInt(u) => *u,
                Number::NegInt(i) => *i as u64,
                Number::Float(b) => *b,
            };
            push_be(out, bits);
        },
        Json::Array(items) => {
            let ghost m = crate::json::view_items(items@);
            let ghost start = out@;
            proof {
                lemma_view_items(items@);
            }
            let mut i: usize = 0;
            while i < items.len()
                invariant
                    *v == Json::Array(*items),
                    i <= items.len(),
                    m == crate::json::view_items(items@),
                    m.len() == items.len(),
                    forall|j: int| 0 <= j < items.len() ==> #[trigger] m[j] == items@[j]@,
                    out@ == start + canonical_items(m, i as nat),
                decreases items.len() - i,
            {
                proof {
                    assert(decreases_to!(*v => v->Array_0));
                    assert(decreases_to!(v->Array_0 => items[i as int]));
                }
                write_canonical(&items[i], out);
                assert(out@ =~= start + canonical_items(m, (i + 1) as nat));
                i = i + 1;
            }
        },
        Json::Object(entries) => {
            let ghost es = view_entries(entries@);
            let ghost start = out@;
            proof {
                lemma_view_entries(entries@);
            }
            let order = sort_positions(entries);
            let ghost ord = ints(order@);
            let mut k: usize = 0;
            while k < order.len()
                invariant
                    *v == Json::Object(*entries),
                    k <= order.len(),
                    order.len() == entries.len(),
                    forall|j: int| 0 <= j < order.len() ==> #[trigger] order@[j] < entries.len(),
                    ord == ints(order@),
                    es == view_entries(entries@),
                    es.len() == entries.len(),
                    forall|j: int|
                        0 <= j < entries.len() ==> #[trigger] es[j] == (entries@[j].0@, entries@[j].1@),
                    out@ == start + canonical_entries(es, ord, k as nat),
                decreases order.len() - k,
            {
                let idx = order[k];
                proof {
                    assert(decreases_to!(*v => v->Object_0));
                    assert(decreases_to!(v->Object_0 => entries[idx as int]));
                    assert(decreases_to!(entries[idx as int] => entries[idx as int].1));
                    assert(ord[k as int] == idx as int);
                }
                push_utf8(out, &entries[idx].0);
                write_canonical(&entries[idx].1, out);
                assert(out@ =~= start + canonical_entries(es, ord, (k + 1) as nat));
                k = k + 1;
            }
        },
    }
}

/// The canonical bytes of `v`.
pub fn canonical_bytes(v: &Json) -> (r: Vec<u8>)
    ensures
        r@ == canonical(v@),
{
    let mut out: Vec<u8> = Vec::new();
    write_canonical(v, &mut out);
    assert(out@ =~= canonical(v@));
    out
}

/// What std's `DefaultHasher` makes of a byte stream written into it at once.
pub uninterp spec fn default_hash(bytes: Seq<u8>) -> u64;

/// Relies on std's DefaultHasher: `new` starts from fixed keys, so the
/// result of `write` then `finish` depends on the bytes alone.
#[verifier::external_body]
fn hash_bytes(b: &Vec<u8>) -> (r: u64)
    ensures
        r == default_hash(b@),
{
    let mut h = std::collections::hash_map::DefaultHasher::new();
    std::hash::Hasher::write(&mut h, b.as_slice());
    std::hash::Hasher::finish(&h)
}

/// The hash of a JSON value, in lower-case hexadecimal.
pub fn hash_value(value: &Json) -> (r: String)
    ensures
        r@ == hex(default_hash(canonical(value@)) as nat),
{
    let bytes = canonical_bytes(value);
    let h = hash_bytes(&bytes);
    let mut out = String::new();
    push_digits(&mut out, h, 16);
    out
}

/// The cache key of a payload whose hash is `digest`: the prefix, then the
/// digest in lower-case hexadecimal.
pub fn memo_key(prefix: &String, digest: u64) -> (r: String)
    ensures
        r@ == prefix@ + hex(digest as nat),
{
    let mut out = prefix.clone();
    push_digits(&mut out, digest, 16);
    out
}

/// The cache key of a payload under a prefix.
pub fn memo_key_of(prefix: &String, payload: &Json) -> (r: String)
    ensures
        r@ == prefix@ + hex(default_hash(canonical(payload@)) as nat),
{
    let bytes = canonical_bytes(payload);
    memo_key(prefix, hash_bytes(&bytes))
}

proof fn lemma_lt_irreflexive(a: Seq<char>)
    ensures
        !key_lt(a, a),
    decreases a.len(),
{
    if a.len() > 0 {
        lemma_lt_irreflexive(a.drop_first());
    }
}

proof fn lemma_lt_transitive(a: Seq<char>, b: Seq<char>, c: Seq<char>)
    requires
        key_lt(a, b),
        key_lt(b, c),
    ensures
        key_lt(a, c),
    decreases a.len(),
{
    if a.len() > 0 && b.len() > 0 && c.len() > 0 && a[0] == b[0] && b[0] == c[0] {
        lemma_lt_transitive(a.drop_first(), b.drop_first(), c.drop_first());
    }
}

proof fn lemma_lt_total(a: Seq<char>, b: Seq<char>)
    requires
        a != b,
    ensures
        key_lt(a, b) || key_lt(b, a),
    decreases a.len(),
{
    if a.len() > 0 && b.len() > 0 {
        if a[0] == b[0] {
            if a.drop_first() == b.drop_first() {
                assert(a =~= seq![a[0]] + a.drop_first());
                assert(b =~= seq![b[0]] + b.drop_first());
            }
            lemma_lt_total(a.drop_first(), b.drop_first());
        } else {
            vstd::utf8::char_u32_cast(a[0], a[0] as u32);
            vstd::utf8::char_u32_cast(b[0], b[0] as u32);
        }
    } else if a.len() == 0 && b.len() == 0 {
        assert(a =~= b);
    }
}

/// No two entries share a key.
pub open spec fn distinct_keys(es: Seq<(Seq<char>, JsonModel)>) -> bool {
    forall|i: int, j: int| 0 <= i < es.len() && 0 <= j < es.len() && i != j ==> es[i].0 != es[j].0
}

/// Each entry's key comes before the keys of the entries after it.
pub open spec fn keys_ascending(es: Seq<(Seq<char>, JsonModel)>) -> bool {
    forall|i: int, j: int| 0 <= i < j < es.len() ==> key_lt(#[trigger] es[i].0, #[trigger] es[j].0)
}

/// The entries at the positions `order`, in that order.
pub open spec fn entries_at(es: Seq<(Seq<char>, JsonModel)>, order: Seq<int>) -> Seq<
    (Seq<char>, JsonModel),
> {
    Seq::new(order.len(), |k: int| es[order[k]])
}

proof fn lemma_insert_shape(es: Seq<(Seq<char>, JsonModel)>, sorted: Seq<int>, x: int) -> (j: int)
    ensures
        0 <= j <= sorted.len(),
        insert_idx(es, sorted, x) == sorted.insert(j, x),
        forall|k: int| 0 <= k < j ==> !key_lt(es[x].0, #[trigger] es[sorted[k]].0),
        j < sorted.len() ==> key_lt(es[x].0, es[sorted[j]].0),
    decreases sorted.len(),
{
    if sorted.len() == 0 {
        assert(sorted.insert(0, x) =~= seq![x]);
        0
    } else if key_lt(es[x].0, es[sorted[0]].0) {
        assert(sorted.insert(0, x) =~= seq![x] + sorted);
        0
    } else {
        let rest = sorted.drop_first();
        let j0 = lemma_insert_shape(es, rest, x);
        assert(sorted.insert(j0 + 1, x) =~= seq![sorted[0]] + rest.insert(j0, x));
        assert forall|k: int| 0 <= k < j0 + 1 implies !key_lt(es[x].0, #[trigger] es[sorted[k]].0) by {
            if k > 0 {
                assert(sorted[k] == rest[k - 1]);
            }
        }
        if j0 < rest.len() {
            assert(sorted[j0 + 1] == rest[j0]);
        }
        j0 + 1
    }
}

/// The positions of the first `n` entries, ordered by key, hold each of
/// `0..n` once, and their keys ascend.
proof fn lemma_key_order(es: Seq<(Seq<char>, JsonModel)>, n: nat)
    requires
        n <= es.len(),
        distinct_keys(es),
    ensures
        key_order(es, n).len() == n,
        forall|k: int| 0 <= k < n ==> 0 <= #[trigger] key_order(es, n)[k] < n,
        forall|i: int| 0 <= i < n ==> key_order(es, n).contains(i),
        keys_ascending(entries_at(es, key_order(es, n))),
    decreases n,
{
    if n > 0 {
        let x = n - 1;
        let prev = key_order(es, (n - 1) as nat);
        lemma_key_order(es, (n - 1) as nat);
        let j = lemma_insert_shape(es, prev, x);
        let cur = key_order(es, n);
        assert(cur == prev.insert(j, x));
        assert forall|k: int| 0 <= k < n implies 0 <= #[trigger] cur[k] < n by {
            if k < j {
                assert(cur[k] == prev[k]);
            } else if k > j {
                assert(cur[k] == prev[k - 1]);
            }
        }
        assert forall|i: int| 0 <= i < n implies cur.contains(i) by {
            if i == x {
                assert(cur[j] == x);
            } else {
                assert(prev.contains(i));
                let k = choose|k: int| 0 <= k < prev.len() && prev[k] == i;
                if k < j {
                    assert(cur[k] == i);
                } else {
                    assert(cur[k + 1] == i);
                }
            }
        }
        let pe = entries_at(es, prev);
        let ce = entries_at(es, cur);
        // Every entry already placed has a key other than the new one.
        assert forall|k: int| 0 <= k < prev.len() implies es[#[trigger] prev[k]].0 != es[x].0 by {
            assert(0 <= prev[k] < n - 1);
        }
        assert forall|a: int, b: int| 0 <= a < b < ce.len() implies key_lt(
            #[trigger] ce[a].0,
            #[trigger] ce[b].0,
        ) by {
            assert(ce[a] == es[cur[a]] && ce[b] == es[cur[b]]);
            if a < j && b < j {
                assert(pe[a] == es[prev[a]] && pe[b] == es[prev[b]]);
            } else if a < j && b == j {
                assert(es[prev[a]].0 != es[x].0);
                lemma_lt_total(es[prev[a]].0, es[x].0);
            } else if a < j && b > j {
                assert(pe[a] == es[prev[a]] && pe[b - 1] == es[prev[b - 1]]);
            } else if a == j {
                assert(pe[b - 1] == es[prev[b - 1]]);
                assert(pe[j] == es[prev[j]]);
                if b - 1 > j {
                    lemma_lt_transitive(es[x].0, es[prev[j]].0, es[prev[b - 1]].0);
                }
            } else {
                assert(pe[a - 1] == es[prev[a - 1]] && pe[b - 1] == es[prev[b - 1]]);
            }
        }
    }
}

/// Two key-ascending sequences with the same entries are the same sequence.
proof fn lemma_ascending_unique(a: Seq<(Seq<char>, JsonModel)>, b: Seq<(Seq<char>, JsonModel)>)
    requires
        keys_ascending(a),
        keys_ascending(b),
        forall|e: (Seq<char>, JsonModel)| a.contains(e) <==> b.contains(e),
    ensures
        a == b,
    decreases a.len(),
{
    if a.len() == 0 {
        if b.len() > 0 {
            assert(b.contains(b[0]));
        }
        assert(a =~= b);
    } else if b.len() == 0 {
        assert(a.contains(a[0]));
    } else {
        assert(a.contains(a[0]));
        let k = choose|k: int| 0 <= k < b.len() && b[k] == a[0];
        assert(b.contains(b[0]));
        let m = choose|m: int| 0 <= m < a.len() && a[m] == b[0];
        if k > 0 {
            assert(key_lt(b[0].0, b[k].0));
            if m > 0 {
                assert(key_lt(a[0].0, a[m].0));
                lemma_lt_transitive(a[0].0, b[0].0, a[0].0);
                lemma_lt_irreflexive(a[0].0);
            } else {
                lemma_lt_irreflexive(a[0].0);
            }
        }
        assert(a[0] == b[0]);
        let a1 = a.drop_first();
        let b1 = b.drop_first();
        assert forall|e: (Seq<char>, JsonModel)| a1.contains(e) <==> b1.contains(e) by {
            if a1.contains(e) {
                let i = choose|i: int| 0 <= i < a1.len() && a1[i] == e;
                assert(a[i + 1] == e);
                assert(key_lt(a[0].0, a[i + 1].0));
                assert(b.contains(e));
                let t = choose|t: int| 0 <= t < b.len() && b[t] == e;
                if t == 0 {
                    lemma_lt_irreflexive(a[0].0);
                }
                assert(b1[t - 1] == e);
            }
            if b1.contains(e) {
                let i = choose|i: int| 0 <= i < b1.len() && b1[i] == e;
                assert(b[i + 1] == e);
                assert(key_lt(b[0].0, b[i + 1].0));
                assert(a.contains(e));
                let t = choose|t: int| 0 <= t < a.len() && a[t] == e;
                if t == 0 {
                    lemma_lt_irreflexive(b[0].0);
                }
                assert(a1[t - 1] == e);
            }
        }
        assert forall|i: int, j: int| 0 <= i < j < a1.len() implies key_lt(
            #[trigger] a1[i].0,
            #[trigger] a1[j].0,
        ) by {
            assert(a1[i] == a[i + 1] && a1[j] == a[j + 1]);
        }
        assert forall|i: int, j: int| 0 <= i < j < b1.len() implies key_lt(
            #[trigger] b1[i].0,
            #[trigger] b1[j].0,
        ) by {
            assert(b1[i] == b[i + 1] && b1[j] == b[j + 1]);
        }
        lemma_ascending_unique(a1, b1);
        assert(a =~= seq![a[0]] + a1);
        assert(b =~= seq![b[0]] + b1);
    }
}

proof fn lemma_entries_bytes(
    es1: Seq<(Seq<char>, JsonModel)>,
    o1: Seq<int>,
    es2: Seq<(Seq<char>, JsonModel)>,
    o2: Seq<int>,
    n: nat,
)
    requires
        n <= o1.len(),
        o1.len() == o2.len(),
        forall|k: int| 0 <= k < o1.len() ==> 0 <= #[trigger] o1[k] < es1.len(),
        forall|k: int| 0 <= k < o2.len() ==> 0 <= #[trigger] o2[k] < es2.len(),
        entries_at(es1, o1) == entries_at(es2, o2),
    ensures
        canonical_entries(es1, o1, n) == canonical_entries(es2, o2, n),
    decreases n,
{
    if n > 0 {
        lemma_entries_bytes(es1, o1, es2, o2, (n - 1) as nat);
        assert(entries_at(es1, o1)[n - 1] == entries_at(es2, o2)[n - 1]);
    }
}

/// The canonical bytes of an object, and so its hash, do not depend on the
/// order in which its entries were inserted.
pub proof fn law_canonical_order_free(o1: Seq<(Seq<char>, JsonModel)>, o2: Seq<(Seq<char>, JsonModel)>)
    requires
        distinct_keys(o1),
        distinct_keys(o2),
        forall|e: (Seq<char>, JsonModel)| o1.contains(e) <==> o2.contains(e),
    ensures
        canonical(JsonModel::Object(o1)) == canonical(JsonModel::Object(o2)),
        default_hash(canonical(JsonModel::Object(o1))) == default_hash(
            canonical(JsonModel::Object(o2)),
        ),
{
    let k1 = key_order(o1, o1.len());
    let k2 = key_order(o2, o2.len());
    lemma_key_order(o1, o1.len());
    lemma_key_order(o2, o2.len());
    let e1 = entries_at(o1, k1);
    let e2 = entries_at(o2, k2);
    assert forall|e: (Seq<char>, JsonModel)| e1.contains(e) <==> o1.contains(e) by {
        if e1.contains(e) {
            let k = choose|k: int| 0 <= k < e1.len() && e1[k] == e;
            assert(o1[k1[k]] == e);
        }
        if o1.contains(e) {
            let i = choose|i: int| 0 <= i < o1.len() && o1[i] == e;
            assert(k1.contains(i));
            let k = choose|k: int| 0 <= k < k1.len() && k1[k] == i;
            assert(e1[k] == e);
        }
    }
    assert forall|e: (Seq<char>, JsonModel)| e2.contains(e) <==> o2.contains(e) by {
        if e2.contains(e) {
            let k = choose|k: int| 0 <= k < e2.len() && e2[k] == e;
            assert(o2[k2[k]] == e);
        }
        if o2.contains(e) {
            let i = choose|i: int| 0 <= i < o2.len() && o2[i] == e;
            assert(k2.contains(i));
            let k = choose|k: int| 0 <= k < k2.len() && k2[k] == i;
            assert(e2[k] == e);
        }
    }
    lemma_ascending_unique(e1, e2);
    assert(o1.len() == o2.len()) by {
        assert(e1.len() == k1.len() && e2.len() == k2.len());
    }
    lemma_entries_bytes(o1, k1, o2, k2, o1.len());
}

} // verus!
