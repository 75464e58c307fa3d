//! Sorting rows by the texts of some of their cells, one column after
//! another, each ascending or descending, ties kept in their former order.

use vstd::prelude::*;

use crate::text::{compare_chars, text_order, Order};

verus! {

/// `o` the other way round.
pub open spec fn flipped(o: Order) -> Order {
    match o {
        Order::Less => Order::Greater,
        Order::Equal => Order::Equal,
        Order::Greater => Order::Less,
    }
}

pub proof fn lemma_text_order_refl(a: Seq<char>)
    ensures
        text_order(a, a) == Order::Equal,
    decreases a.len(),
{
    if a.len() > 0 {
        lemma_text_order_refl(a.drop_first());
    }
}

pub proof fn lemma_text_order_flip(a: Seq<char>, b: Seq<char>)
    ensures
        text_order(a, b) == flipped(text_order(b, a)),
    decreases a.len(),
{
    if a.len() > 0 && b.len() > 0 {
        lemma_text_order_flip(a.drop_first(), b.drop_first());
    }
}

proof fn lemma_char_eq(x: char, y: char)
    requires
        x as u32 == y as u32,
    ensures
        x == y,
{
    assert(x as int == y as int);
}

/// Texts compare equal only where they are the same.
pub proof fn lemma_text_order_equal(a: Seq<char>, b: Seq<char>)
    requires
        text_order(a, b) == Order::Equal,
    ensures
        a == b,
    decreases a.len(),
{
    if a.len() > 0 && b.len() > 0 {
        lemma_text_order_equal(a.drop_first(), b.drop_first());
        assert(a[0] as u32 == b[0] as u32);
        lemma_char_eq(a[0], b[0]);
        assert(a =~= seq![a[0]] + a.drop_first());
        assert(b =~= seq![b[0]] + b.drop_first());
    }
}

/// Texts that tie compare alike with any third text.
pub proof fn lemma_text_order_tie(a: Seq<char>, b: Seq<char>, c: Seq<char>)
    requires
        text_order(a, b) == Order::Equal,
    ensures
        text_order(a, c) == text_order(b, c),
        text_order(c, a) == text_order(c, b),
    decreases a.len(),
{
    if a.len() > 0 && b.len() > 0 && c.len() > 0 {
        lemma_text_order_tie(a.drop_first(), b.drop_first(), c.drop_first());
    }
}

pub proof fn lemma_text_order_trans(a: Seq<char>, b: Seq<char>, c: Seq<char>)
    requires
        text_order(a, b) == Order::Less,
        text_order(b, c) == Order::Less,
    ensures
        text_order(a, c) == Order::Less,
    decreases a.len(),
{
    if a.len() > 0 && b.len() > 0 && c.len() > 0 {
        if a[0] as u32 == b[0] as u32 && b[0] as u32 == c[0] as u32 {
            lemma_text_order_trans(a.drop_first(), b.drop_first(), c.drop_first());
        }
    }
}

/// How the sort keys `ka` and `kb` compare from column `i` on: by the
/// first column where their texts differ, reversed where that column sorts
/// descending (`asc[i]` false).
pub open spec fn keys_order(ka: Seq<Seq<char>>, kb: Seq<Seq<char>>, asc: Seq<bool>, i: int) -> Order
    decreases asc.len() - i,
{
    if i < 0 || i >= asc.len() {
        Order::Equal
    } else {
        let o = text_order(ka[i], kb[i]);
        if o == Order::Equal {
            keys_order(ka, kb, asc, i + 1)
        } else if asc[i] {
            o
        } else {
            flipped(o)
        }
    }
}

/// Position `p` comes before position `q`: its key sorts first, or the keys
/// tie and it stood first.
pub open spec fn precedes(keys: Seq<Seq<Seq<char>>>, asc: Seq<bool>, p: int, q: int) -> bool {
    match keys_order(keys[p], keys[q], asc, 0) {
        Order::Less => true,
        Order::Greater => false,
        Order::Equal => p < q,
    }
}

/// `pos` lists positions in the order that `precedes` gives.
pub open spec fn in_order(pos: Seq<usize>, keys: Seq<Seq<Seq<char>>>, asc: Seq<bool>) -> bool {
    forall|i: int, j: int|
        0 <= i < j < pos.len() ==> precedes(keys, asc, #[trigger] pos[i] as int, #[trigger] pos[j] as int)
}

/// `pos` arranges the positions `0 .. n` in the order that `precedes`
/// gives: it has `n` entries, each below `n`, in that order (so each
/// position exactly once).
pub open spec fn arranged(pos: Seq<usize>, keys: Seq<Seq<Seq<char>>>, asc: Seq<bool>, n: nat) -> bool {
    &&& pos.len() == n
    &&& forall|i: int| 0 <= i < pos.len() ==> (#[trigger] pos[i]) < n
    &&& in_order(pos, keys, asc)
}

proof fn lemma_keys_refl(k: Seq<Seq<char>>, asc: Seq<bool>, i: int)
    ensures
        keys_order(k, k, asc, i) == Order::Equal,
    decreases asc.len() - i,
{
    if 0 <= i < asc.len() {
        lemma_text_order_refl(k[i]);
        lemma_keys_refl(k, asc, i + 1);
    }
}

proof fn lemma_keys_flip(ka: Seq<Seq<char>>, kb: Seq<Seq<char>>, asc: Seq<bool>, i: int)
    ensures
        keys_order(ka, kb, asc, i) == flipped(keys_order(kb, ka, asc, i)),
    decreases asc.len() - i,
{
    if 0 <= i < asc.len() {
        lemma_text_order_flip(ka[i], kb[i]);
        lemma_keys_flip(ka, kb, asc, i + 1);
    }
}

/// Keys that tie from column `i` on compare alike with any third key.
proof fn lemma_keys_tie(ka: Seq<Seq<char>>, kb: Seq<Seq<char>>, kc: Seq<Seq<char>>, asc: Seq<bool>, i: int)
    requires
        keys_order(kb, kc, asc, i) == Order::Equal,
    ensures
        keys_order(ka, kb, asc, i) == keys_order(ka, kc, asc, i),
    decreases asc.len() - i,
{
    if 0 <= i < asc.len() {
        lemma_text_order_tie(kb[i], kc[i], ka[i]);
        lemma_keys_tie(ka, kb, kc, asc, i + 1);
    }
}

proof fn lemma_keys_trans(ka: Seq<Seq<char>>, kb: Seq<Seq<char>>, kc: Seq<Seq<char>>, asc: Seq<bool>, i: int)
    requires
        keys_order(ka, kb, asc, i) == Order::Less,
        keys_order(kb, kc, asc, i) == Order::Less,
    ensures
        keys_order(ka, kc, asc, i) == Order::Less,
    decreases asc.len() - i,
{
    if 0 <= i < asc.len() {
        let oab = text_order(ka[i], kb[i]);
        let obc = text_order(kb[i], kc[i]);
        lemma_text_order_flip(ka[i], kb[i]);
        lemma_text_order_flip(kb[i], kc[i]);
        lemma_text_order_flip(ka[i], kc[i]);
        if oab == Order::Equal && obc == Order::Equal {
            lemma_text_order_tie(ka[i], kb[i], kc[i]);
            lemma_keys_trans(ka, kb, kc, asc, i + 1);
        } else if oab == Order::Equal {
            lemma_text_order_tie(ka[i], kb[i], kc[i]);
        } else if obc == Order::Equal {
            lemma_text_order_tie(kb[i], kc[i], ka[i]);
        } else if asc[i] {
            lemma_text_order_trans(ka[i], kb[i], kc[i]);
        } else {
            lemma_text_order_trans(kc[i], kb[i], ka[i]);
        }
    }
}

/// `precedes` is a strict total order on positions.
pub proof fn lemma_precedes(keys: Seq<Seq<Seq<char>>>, asc: Seq<bool>, p: int, q: int, r: int)
    ensures
        !precedes(keys, asc, p, p),
        p != q ==> (precedes(keys, asc, p, q) || precedes(keys, asc, q, p)),
        precedes(keys, asc, p, q) && precedes(keys, asc, q, r) ==> precedes(keys, asc, p, r),
{
    lemma_keys_refl(keys[p], asc, 0);
    lemma_keys_flip(keys[p], keys[q], asc, 0);
    if precedes(keys, asc, p, q) && precedes(keys, asc, q, r) {
        let opq = keys_order(keys[p], keys[q], asc, 0);
        let oqr = keys_order(keys[q], keys[r], asc, 0);
        if opq == Order::Equal {
            lemma_keys_flip(keys[p], keys[q], asc, 0);
            lemma_keys_tie(keys[r], keys[q], keys[p], asc, 0);
            lemma_keys_flip(keys[r], keys[q], asc, 0);
            lemma_keys_flip(keys[r], keys[p], asc, 0);
        } else if oqr == Order::Equal {
            lemma_keys_tie(keys[p], keys[q], keys[r], asc, 0);
        } else {
            lemma_keys_trans(keys[p], keys[q], keys[r], asc, 0);
        }
    }
}

/// How the keys of positions `p` and `q` compare (see `keys_order`).
fn compare_keys(keys: &Vec<Vec<Vec<char>>>, asc: &Vec<bool>, p: usize, q: usize) -> (o: Order)
    requires
        p < keys@.len(),
        q < keys@.len(),
        forall|i: int| 0 <= i < keys@.len() ==> (#[trigger] keys@[i])@.len() == asc@.len(),
    ensures
        o == keys_order(keys.deep_view()[p as int], keys.deep_view()[q as int], asc@, 0),
{
    let ghost kv = keys.deep_view();
    let n = asc.len();
    let mut i: usize = 0;
    while i < n
        invariant
            i <= n,
            n == asc@.len(),
            p < keys@.len(),
            q < keys@.len(),
            kv == keys.deep_view(),
            keys@[p as int]@.len() == n,
            keys@[q as int]@.len() == n,
            keys_order(kv[p as int], kv[q as int], asc@, 0) == keys_order(kv[p as int], kv[q as int], asc@, i as int),
        decreases n - i,
    {
        assert(kv[p as int][i as int] == keys@[p as int]@[i as int]@);
        assert(kv[q as int][i as int] == keys@[q as int]@[i as int]@);
        let o = compare_chars(keys[p][i].as_slice(), keys[q][i].as_slice());
        match o {
            Order::Equal => {},
            _ => {
                if asc[i] {
                    return o;
                } else {
                    return match o {
                        Order::Less => Order::Greater,
                        Order::Greater => Order::Less,
                        Order::Equal => Order::Equal,
                    };
                }
            },
        }
        i = i + 1;
    }
    Order::Equal
}

/// Whether position `p` comes before position `q` (see `precedes`).
fn comes_before(keys: &Vec<Vec<Vec<char>>>, asc: &Vec<bool>, p: usize, q: usize) -> (b: bool)
    requires
        p < keys@.len(),
        q < keys@.len(),
        forall|i: int| 0 <= i < keys@.len() ==> (#[trigger] keys@[i])@.len() == asc@.len(),
    ensures
        b == precedes(keys.deep_view(), asc@, p as int, q as int),
{
    match compare_keys(keys, asc, p, q) {
        Order::Less => true,
        Order::Greater => false,
        Order::Equal => p < q,
    }
}

/// Merges two runs that are each in order into one.
fn merge(keys: &Vec<Vec<Vec<char>>>, asc: &Vec<bool>, a: Vec<usize>, b: Vec<usize>) -> (m: Vec<usize>)
    requires
        forall|i: int| 0 <= i < keys@.len() ==> (#[trigger] keys@[i])@.len() == asc@.len(),
        forall|i: int| 0 <= i < a@.len() ==> (#[trigger] a@[i]) < keys@.len(),
        forall|i: int| 0 <= i < b@.len() ==> (#[trigger] b@[i]) < keys@.len(),
        forall|i: int, j: int| 0 <= i < a@.len() && 0 <= j < b@.len() ==> a@[i] != b@[j],
        in_order(a@, keys.deep_view(), asc@),
        in_order(b@, keys.deep_view(), asc@),
    ensures
        m@.len() == a@.len() + b@.len(),
        forall|i: int| 0 <= i < m@.len() ==> a@.contains(#[trigger] m@[i]) || b@.contains(m@[i]),
        in_order(m@, keys.deep_view(), asc@),
{
    let ghost kv = keys.deep_view();
    let ghost av = asc@;
    let mut m: Vec<usize> = Vec::new();
    let mut i: usize = 0;
    let mut j: usize = 0;
    while i < a.len() || j < b.len()
        invariant
            i <= a@.len(),
            j <= b@.len(),
            kv == keys.deep_view(),
            av == asc@,
            forall|x: int| 0 <= x < keys@.len() ==> (#[trigger] keys@[x])@.len() == asc@.len(),
            forall|x: int| 0 <= x < a@.len() ==> (#[trigger] a@[x]) < keys@.len(),
            forall|x: int| 0 <= x < b@.len() ==> (#[trigger] b@[x]) < keys@.len(),
            forall|x: int, y: int| 0 <= x < a@.len() && 0 <= y < b@.len() ==> a@[x] != b@[y],
            in_order(a@, kv, av),
            in_order(b@, kv, av),
            m@.len() == i + j,
            forall|x: int| 0 <= x < m@.len() ==> a@.contains(#[trigger] m@[x]) || b@.contains(m@[x]),
            in_order(m@, kv, av),
            m@.len() > 0 && i < a@.len() ==> precedes(kv, av, m@.last() as int, a@[i as int] as int),
            m@.len() > 0 && j < b@.len() ==> precedes(kv, av, m@.last() as int, b@[j as int] as int),
        decreases a@.len() + b@.len() - i - j,
    {
        let take_a = if i < a.len() && j < b.len() {
            comes_before(keys, asc, a[i], b[j])
        } else {
            i < a.len()
        };
        let x = if take_a {
            a[i]
        } else {
            b[j]
        };
        proof {
            if i < a@.len() && j < b@.len() {
                lemma_precedes(kv, av, a@[i as int] as int, b@[j as int] as int, 0);
            }
            assert forall|y: int| 0 <= y < m@.len() implies precedes(kv, av, m@[y] as int, x as int) by {
                if y < m@.len() - 1 {
                    lemma_precedes(kv, av, m@[y] as int, m@.last() as int, x as int);
                }
            }
            if take_a && i + 1 < a@.len() {
                assert(precedes(kv, av, a@[i as int] as int, a@[i + 1] as int));
            }
            if !take_a && j + 1 < b@.len() {
                assert(precedes(kv, av, b@[j as int] as int, b@[j + 1] as int));
            }
        }
        let ghost m0 = m@;
        m.push(x);
        proof {
            assert forall|p: int, q: int| 0 <= p < q < m@.len() implies precedes(
                kv,
                av,
                #[trigger] m@[p] as int,
                #[trigger] m@[q] as int,
            ) by {
                if q < m0.len() {
                    assert(m@[p] == m0[p] && m@[q] == m0[q]);
                }
            }
            assert forall|y: int| 0 <= y < m@.len() implies a@.contains(#[trigger] m@[y]) || b@.contains(m@[y]) by {
                if y < m0.len() {
                    assert(m@[y] == m0[y]);
                } else if take_a {
                    assert(a@[i as int] == m@[y]);
                } else {
                    assert(b@[j as int] == m@[y]);
                }
            }
        }
        if take_a {
            i = i + 1;
        } else {
            j = j + 1;
        }
    }
    m
}

/// The positions `lo .. hi` in the order that `precedes` gives.
fn sort_range(keys: &Vec<Vec<Vec<char>>>, asc: &Vec<bool>, lo: usize, hi: usize) -> (pos: Vec<usize>)
    requires
        lo <= hi <= keys@.len(),
        forall|i: int| 0 <= i < keys@.len() ==> (#[trigger] keys@[i])@.len() == asc@.len(),
    ensures
        pos@.len() == hi - lo,
        forall|i: int| 0 <= i < pos@.len() ==> lo <= #[trigger] pos@[i] < hi,
        in_order(pos@, keys.deep_view(), asc@),
    decreases hi - lo,
{
    if hi - lo <= 1 {
        let mut v: Vec<usize> = Vec::new();
        if lo < hi {
            v.push(lo);
        }
        return v;
    }
    let mid = lo + (hi - lo) / 2;
    let a = sort_range(keys, asc, lo, mid);
    let b = sort_range(keys, asc, mid, hi);
    proof {
        assert forall|i: int, j: int| 0 <= i < a@.len() && 0 <= j < b@.len() implies a@[i] != b@[j] by {
            assert(a@[i] < mid);
            assert(mid <= b@[j]);
        }
    }
    let m = merge(keys, asc, a, b);
    proof {
        assert forall|i: int| 0 <= i < m@.len() implies lo <= #[trigger] m@[i] < hi by {
            if a@.contains(m@[i]) {
                let j = choose|j: int| 0 <= j < a@.len() && a@[j] == m@[i];
                assert(lo <= a@[j] < mid);
            } else {
                let j = choose|j: int| 0 <= j < b@.len() && b@[j] == m@[i];
                assert(mid <= b@[j] < hi);
            }
        }
    }
    m
}

/// Arranges the positions `0 .. keys.len()` by their keys, ties kept in
/// position order: a stable sort.
pub fn sort_positions(keys: &Vec<Vec<Vec<char>>>, asc: &Vec<bool>) -> (pos: Vec<usize>)
    requires
        forall|i: int| 0 <= i < keys@.len() ==> (#[trigger] keys@[i])@.len() == asc@.len(),
    ensures
        arranged(pos@, keys.deep_view(), asc@, keys@.len()),
{
    sort_range(keys, asc, 0, keys.len())
}

} // verus!

verus! {

/// Position `p` occurs in `pos`.
pub open spec fn lists(pos: Seq<usize>, p: int) -> bool {
    exists|i: int| 0 <= i < pos.len() && pos[i] as int == p
}

/// A sequence of `n` distinct positions below `n` holds each of them.
pub proof fn lemma_covers(pos: Seq<usize>, n: nat)
    requires
        pos.len() == n,
        forall|i: int| 0 <= i < n ==> (#[trigger] pos[i]) < n,
        pos.no_duplicates(),
    ensures
        forall|p: int| 0 <= p < n ==> #[trigger] lists(pos, p),
{
    broadcast use vstd::seq_lib::seq_to_set_is_finite;
    let ip = pos.map_values(|x: usize| x as int);
    assert(ip.no_duplicates()) by {
        assert forall|i: int, j: int| 0 <= i < ip.len() && 0 <= j < ip.len() && i != j implies ip[i] != ip[j] by {
            assert(pos[i] != pos[j]);
        }
    }
    ip.unique_seq_to_set();
    let s = ip.to_set();
    vstd::set_lib::lemma_int_range(0, n as int);
    assert(s.subset_of(vstd::set_lib::set_int_range(0, n as int))) by {
        assert forall|x: int| s.contains(x) implies vstd::set_lib::set_int_range(0, n as int).contains(x) by {
            let i = choose|i: int| 0 <= i < ip.len() && ip[i] == x;
            assert(pos[i] < n);
        }
    }
    vstd::set_lib::lemma_subset_equality(s, vstd::set_lib::set_int_range(0, n as int));
    assert forall|p: int| 0 <= p < n implies #[trigger] lists(pos, p) by {
        assert(vstd::set_lib::set_int_range(0, n as int).contains(p));
        assert(s.contains(p));
        let i = choose|i: int| 0 <= i < ip.len() && ip[i] == p;
        assert(pos[i] as int == p);
    }
}

/// An arrangement names each position once.
pub proof fn lemma_arranged_covers(pos: Seq<usize>, keys: Seq<Seq<Seq<char>>>, asc: Seq<bool>, n: nat)
    requires
        arranged(pos, keys, asc, n),
    ensures
        pos.no_duplicates(),
        forall|p: int| 0 <= p < n ==> #[trigger] lists(pos, p),
{
    assert forall|i: int, j: int| 0 <= i < pos.len() && 0 <= j < pos.len() && i != j implies pos[i] != pos[j] by {
        lemma_precedes(keys, asc, pos[i] as int, pos[i] as int, 0);
        if i < j {
            assert(precedes(keys, asc, pos[i] as int, pos[j] as int));
        } else {
            assert(precedes(keys, asc, pos[j] as int, pos[i] as int));
        }
    }
    lemma_covers(pos, n);
}

/// Each text comes before the next, none twice.
pub open spec fn strictly_sorted(vs: Seq<Seq<char>>) -> bool {
    forall|i: int, j: int| 0 <= i < j < vs.len() ==> text_order(#[trigger] vs[i], #[trigger] vs[j]) == Order::Less
}

/// The texts of `texts`, each once, in the order of `str`'s `Ord`.
pub fn sorted_unique(texts: &Vec<String>) -> (vs: Vec<String>)
    ensures
        strictly_sorted(vs.deep_view()),
        forall|v: Seq<char>| vs.deep_view().contains(v) <==> texts.deep_view().contains(v),
        vs@.len() <= texts@.len(),
{
    let ghost tv = texts.deep_view();
    let n = texts.len();
    let mut keys: Vec<Vec<Vec<char>>> = Vec::new();
    let mut i: usize = 0;
    while i < n
        invariant
            i <= n,
            n == texts@.len(),
            tv == texts.deep_view(),
            keys@.len() == i,
            forall|x: int| 0 <= x < i ==> (#[trigger] keys@[x])@.len() == 1,
            forall|x: int| 0 <= x < i ==> (#[trigger] keys.deep_view()[x]) == seq![tv[x]],
        decreases n - i,
    {
        let ghost kd = keys.deep_view();
        let c = crate::text::chars_of(texts[i].as_str());
        assert(c.deep_view() =~= c@);
        let k = vec![c];
        assert(k.deep_view() =~= seq![tv[i as int]]);
        keys.push(k);
        proof {
            assert forall|x: int| 0 <= x < i + 1 implies (#[trigger] keys.deep_view()[x]) == seq![tv[x]] by {
                if x < i {
                    assert(keys.deep_view()[x] == kd[x]);
                }
            }
        }
        i = i + 1;
    }
    let asc = vec![true];
    let ghost kv = keys.deep_view();
    assert(kv.len() == n);
    let pos = sort_positions(&keys, &asc);
    proof {
        lemma_arranged_covers(pos@, kv, asc@, n as nat);
    }
    let mut vs: Vec<String> = Vec::new();
    let mut j: usize = 0;
    while j < n
        invariant
            j <= n,
            n == texts@.len(),
            tv == texts.deep_view(),
            kv == keys.deep_view(),
            kv.len() == n,
            asc@ == seq![true],
            forall|x: int| 0 <= x < n ==> (#[trigger] kv[x]) == seq![tv[x]],
            arranged(pos@, kv, asc@, n as nat),
            strictly_sorted(vs.deep_view()),
            j > 0 ==> vs@.len() > 0 && vs.deep_view().last() == tv[pos@[j - 1] as int],
            vs@.len() <= j,
            forall|v: Seq<char>|
                vs.deep_view().contains(v) <==> exists|x: int| 0 <= x < j && tv[#[trigger] pos@[x] as int] == v,
        decreases n - j,
    {
        let p = pos[j];
        let t = &texts[p];
        let dup = if j > 0 {
            crate::text::text_eq(t.as_str(), texts[pos[j - 1]].as_str())
        } else {
            false
        };
        let ghost vd = vs.deep_view();
        if !dup {
            proof {
                if j > 0 {
                    let a = pos@[j - 1] as int;
                    let b = p as int;
                    assert(precedes(kv, asc@, a, b));
                    assert(kv[a] == seq![tv[a]]);
                    assert(kv[b] == seq![tv[b]]);
                    assert(keys_order(kv[a], kv[b], asc@, 1) == Order::Equal);
                    if text_order(tv[a], tv[b]) == Order::Equal {
                        lemma_text_order_equal(tv[a], tv[b]);
                    }
                    assert(text_order(tv[a], tv[b]) == Order::Less);
                    assert forall|x: int| 0 <= x < vd.len() implies text_order(#[trigger] vd[x], tv[b]) == Order::Less by {
                        if x < vd.len() - 1 {
                            assert(text_order(vd[x], vd[vd.len() - 1]) == Order::Less);
                            lemma_text_order_trans(vd[x], tv[a], tv[b]);
                        }
                    }
                }
            }
            vs.push(t.clone());
            proof {
                assert(vs.deep_view() =~= vd.push(tv[p as int]));
                assert forall|x: int, y: int| 0 <= x < y < vs.deep_view().len() implies text_order(
                    #[trigger] vs.deep_view()[x],
                    #[trigger] vs.deep_view()[y],
                ) == Order::Less by {
                    if y < vd.len() {
                        assert(vs.deep_view()[x] == vd[x] && vs.deep_view()[y] == vd[y]);
                    } else {
                        assert(vs.deep_view()[x] == vd[x]);
                        assert(text_order(vd[x], tv[p as int]) == Order::Less);
                    }
                }
            }
        } else {
            proof {
                assert(vd.last() == tv[p as int]);
                assert(vd.contains(tv[p as int]));
            }
        }
        proof {
            assert forall|v: Seq<char>|
                vs.deep_view().contains(v) <==> exists|x: int| 0 <= x < j + 1 && tv[#[trigger] pos@[x] as int] == v by {
                if vs.deep_view().contains(v) {
                    if !vd.contains(v) {
                        assert(tv[pos@[j as int] as int] == v);
                    }
                }
                if exists|x: int| 0 <= x < j + 1 && tv[#[trigger] pos@[x] as int] == v {
                    let x = choose|x: int| 0 <= x < j + 1 && tv[#[trigger] pos@[x] as int] == v;
                    if x < j {
                        assert(vd.contains(v));
                        let y = choose|y: int| 0 <= y < vd.len() && vd[y] == v;
                        assert(vs.deep_view()[y] == v);
                    } else {
                        assert(vs.deep_view().last() == v);
                    }
                }
            }
        }
        j = j + 1;
    }
    proof {
        assert forall|v: Seq<char>| vs.deep_view().contains(v) <==> tv.contains(v) by {
            if tv.contains(v) {
                let q = choose|q: int| 0 <= q < tv.len() && tv[q] == v;
                assert(lists(pos@, q));
                let x = choose|x: int| 0 <= x < pos@.len() && pos@[x] as int == q;
                assert(tv[pos@[x] as int] == v);
            }
            if vs.deep_view().contains(v) {
                let x = choose|x: int| 0 <= x < n && tv[#[trigger] pos@[x] as int] == v;
                assert(pos@[x] < n);
            }
        }
    }
    vs
}

} // verus!

verus! {

/// Where `x` stands in the strictly sorted texts `uniq`, found by halving.
pub fn find_sorted(uniq: &Vec<Vec<char>>, x: &[char]) -> (r: Option<usize>)
    requires
        strictly_sorted(uniq.deep_view()),
    ensures
        match r {
            Some(i) => i < uniq@.len() && uniq.deep_view()[i as int] == x@,
            None => !uniq.deep_view().contains(x@),
        },
{
    let ghost u = uniq.deep_view();
    let mut lo: usize = 0;
    let mut hi: usize = uniq.len();
    while lo < hi
        invariant
            lo <= hi <= uniq@.len(),
            u == uniq.deep_view(),
            strictly_sorted(u),
            forall|j: int| 0 <= j < lo ==> text_order(#[trigger] u[j], x@) == Order::Less,
            forall|j: int| hi <= j < u.len() ==> text_order(x@, #[trigger] u[j]) == Order::Less,
        decreases hi - lo,
    {
        let mid = lo + (hi - lo) / 2;
        assert(u[mid as int] == uniq@[mid as int]@) by {
            assert(uniq@[mid as int].deep_view() =~= uniq@[mid as int]@);
        }
        let o = compare_chars(uniq[mid].as_slice(), x);
        match o {
            Order::Equal => {
                proof {
                    lemma_text_order_equal(u[mid as int], x@);
                }
                return Some(mid);
            },
            Order::Less => {
                proof {
                    assert forall|j: int| 0 <= j < mid + 1 implies text_order(#[trigger] u[j], x@) == Order::Less by {
                        if j < mid {
                            lemma_text_order_trans(u[j], u[mid as int], x@);
                        }
                    }
                }
                lo = mid + 1;
            },
            Order::Greater => {
                proof {
                    lemma_text_order_flip(u[mid as int], x@);
                    assert forall|j: int| mid <= j < u.len() implies text_order(x@, #[trigger] u[j]) == Order::Less by {
                        if j > mid {
                            lemma_text_order_trans(x@, u[mid as int], u[j]);
                        }
                    }
                }
                hi = mid;
            },
        }
    }
    proof {
        assert forall|j: int| 0 <= j < u.len() implies u[j] != x@ by {
            lemma_text_order_refl(x@);
        }
    }
    None
}

} // verus!
