//! Sorting: the order of some items by weight, largest first, and by name.
use vstd::prelude::*;

use crate::text;

verus! {

/// What an item is sorted by.
pub struct SortKey {
    pub weight: i128,
    pub name: String,
}

impl View for SortKey {
    type V = (int, Seq<char>);

    open spec fn view(&self) -> (int, Seq<char>) {
        (self.weight as int, self.name@)
    }
}

/// The weights and names of some keys.
pub open spec fn key_views(keys: Seq<SortKey>) -> Seq<(int, Seq<char>)> {
    keys.map_values(|k: SortKey| k@)
}

/// Whether `a` comes before `b` in the order of their characters.
pub open spec fn name_less(a: Seq<char>, b: Seq<char>) -> bool
    decreases a.len(),
{
    if b.len() == 0 {
        false
    } else if a.len() == 0 {
        true
    } else if a[0] != b[0] {
        (a[0] as u32) < (b[0] as u32)
    } else {
        name_less(a.drop_first(), b.drop_first())
    }
}

/// Whether item `i` stands before item `j`: the larger weight first, then the smaller name, then
/// the earlier item.
pub open spec fn precedes(keys: Seq<(int, Seq<char>)>, i: int, j: int) -> bool {
    ||| keys[i].0 > keys[j].0
    ||| keys[i].0 == keys[j].0 && name_less(keys[i].1, keys[j].1)
    ||| keys[i].0 == keys[j].0 && keys[i].1 == keys[j].1 && i < j
}

/// Whether `order` lists each of the items from `lo` to `hi` once, in their order.
pub open spec fn orders_range(
    keys: Seq<(int, Seq<char>)>,
    lo: int,
    hi: int,
    order: Seq<int>,
) -> bool {
    &&& order.len() == hi - lo
    &&& forall|a: int| 0 <= a < order.len() ==> lo <= #[trigger] order[a] < hi
    &&& forall|i: int| lo <= i < hi ==> #[trigger] order.contains(i)
    &&& forall|a: int, b: int|
        0 <= a < b < order.len() ==> precedes(keys, #[trigger] order[a], #[trigger] order[b])
}

/// Whether `order` lists each item once, in their order.
pub open spec fn is_order(keys: Seq<(int, Seq<char>)>, order: Seq<int>) -> bool {
    orders_range(keys, 0, keys.len() as int, order)
}

/// The order of some items.
pub open spec fn order_of(keys: Seq<(int, Seq<char>)>) -> Seq<int> {
    choose|order: Seq<int>| is_order(keys, order)
}

/// The positions of an order, as numbers.
pub open spec fn positions(order: Seq<usize>) -> Seq<int> {
    order.map_values(|i: usize| i as int)
}

/// No name comes before itself.
proof fn lemma_less_irreflexive(a: Seq<char>)
    ensures
        !name_less(a, a),
    decreases a.len(),
{
    if a.len() > 0 {
        lemma_less_irreflexive(a.drop_first());
    }
}

/// The order of names is transitive.
proof fn lemma_less_transitive(a: Seq<char>, b: Seq<char>, c: Seq<char>)
    requires
        name_less(a, b),
        name_less(b, c),
    ensures
        name_less(a, c),
    decreases a.len(),
{
    if a.len() > 0 && a[0] == b[0] && b[0] == c[0] {
        lemma_less_transitive(a.drop_first(), b.drop_first(), c.drop_first());
    }
}

/// Of two different names one comes first.
proof fn lemma_less_total(a: Seq<char>, b: Seq<char>)
    ensures
        name_less(a, b) || name_less(b, a) || a == b,
    decreases a.len(),
{
    if a.len() > 0 && b.len() > 0 && a[0] == b[0] {
        lemma_less_total(a.drop_first(), b.drop_first());
        if a.drop_first() == b.drop_first() {
            assert(a =~= seq![a[0]] + a.drop_first());
            assert(b =~= seq![b[0]] + b.drop_first());
        }
    } else if a.len() == 0 && b.len() == 0 {
        assert(a =~= b);
    } else if a.len() > 0 && b.len() > 0 {
        vstd::utf8::char_u32_cast(a[0], a[0] as u32);
        vstd::utf8::char_u32_cast(b[0], b[0] as u32);
    }
}

/// The order of items is transitive.
proof fn lemma_precedes_transitive(keys: Seq<(int, Seq<char>)>, i: int, j: int, k: int)
    requires
        precedes(keys, i, j),
        precedes(keys, j, k),
    ensures
        precedes(keys, i, k),
{
    if name_less(keys[i].1, keys[j].1) && name_less(keys[j].1, keys[k].1) {
        lemma_less_transitive(keys[i].1, keys[j].1, keys[k].1);
    }
}

/// Of two items one stands before the other.
proof fn lemma_precedes_total(keys: Seq<(int, Seq<char>)>, i: int, j: int)
    requires
        i != j,
    ensures
        precedes(keys, i, j) || precedes(keys, j, i),
{
    lemma_less_total(keys[i].1, keys[j].1);
}

/// No item stands before itself, and of two items not each before the other.
proof fn lemma_precedes_strict(keys: Seq<(int, Seq<char>)>, i: int, j: int)
    requires
        precedes(keys, i, j),
    ensures
        !precedes(keys, j, i),
{
    if precedes(keys, j, i) {
        if name_less(keys[i].1, keys[j].1) && name_less(keys[j].1, keys[i].1) {
            lemma_less_transitive(keys[i].1, keys[j].1, keys[i].1);
        }
        lemma_less_irreflexive(keys[i].1);
        lemma_less_irreflexive(keys[j].1);
    }
}

/// There is only one order of some items.
pub proof fn law_order_unique(keys: Seq<(int, Seq<char>)>, a: Seq<int>, b: Seq<int>)
    requires
        is_order(keys, a),
        is_order(keys, b),
    ensures
        a == b,
{
    assert forall|k: int| 0 <= k < a.len() implies a[k] == b[k] by {
        lemma_same_item(keys, a, b, k);
    }
    assert(a =~= b);
}

/// Two orders of the same items agree at each position, if they do at those before.
proof fn lemma_same_item(keys: Seq<(int, Seq<char>)>, a: Seq<int>, b: Seq<int>, k: int)
    requires
        is_order(keys, a),
        is_order(keys, b),
        0 <= k < a.len(),
    ensures
        a[k] == b[k],
    decreases k,
{
    assert forall|j: int| 0 <= j < k implies a[j] == b[j] by {
        lemma_same_item(keys, a, b, j);
    }
    if a[k] != b[k] {
        assert(b.contains(a[k]));
        let p = choose|p: int| 0 <= p < b.len() && b[p] == a[k];
        assert(a.contains(b[k]));
        let q = choose|q: int| 0 <= q < a.len() && a[q] == b[k];
        if p < k {
            assert(a[p] == b[p]);
            assert(precedes(keys, a[p], a[k]));
            lemma_precedes_strict(keys, a[p], a[k]);
        }
        if q < k {
            assert(a[q] == b[q]);
            assert(precedes(keys, b[q], b[k]));
            lemma_precedes_strict(keys, b[q], b[k]);
        }
        assert(precedes(keys, b[k], b[p]));
        assert(precedes(keys, a[k], a[q]));
        lemma_precedes_strict(keys, a[k], b[k]);
    }
}

/// Where an item belongs in the order of others, from a position on.
proof fn lemma_place(keys: Seq<(int, Seq<char>)>, order: Seq<int>, item: int, from: int) -> (p: int)
    requires
        0 <= from <= order.len(),
        !order.contains(item),
        forall|a: int| 0 <= a < from ==> precedes(keys, #[trigger] order[a], item),
    ensures
        from <= p <= order.len(),
        forall|a: int| 0 <= a < p ==> precedes(keys, #[trigger] order[a], item),
        p < order.len() ==> precedes(keys, item, order[p]),
    decreases order.len() - from,
{
    if from == order.len() || precedes(keys, item, order[from]) {
        from
    } else {
        assert(order.contains(order[from]));
        lemma_precedes_total(keys, item, order[from]);
        lemma_place(keys, order, item, from + 1)
    }
}

/// The first `n` items have an order.
proof fn lemma_order(keys: Seq<(int, Seq<char>)>, n: int) -> (order: Seq<int>)
    requires
        0 <= n <= keys.len(),
    ensures
        orders_range(keys, 0, n, order),
    decreases n,
{
    if n == 0 {
        Seq::empty()
    } else {
        let last = n - 1;
        let before = lemma_order(keys, last);
        assert(!before.contains(last));
        let p = lemma_place(keys, before, last, 0);
        let order = before.insert(p, last);
        assert forall|i: int| 0 <= i < n implies #[trigger] order.contains(i) by {
            if i == last {
                assert(order[p] == i);
            } else {
                assert(before.contains(i));
                let k = choose|k: int| 0 <= k < before.len() && before[k] == i;
                assert(order[if k < p { k } else { k + 1 }] == i);
            }
        }
        assert forall|a: int, b: int| 0 <= a < b < order.len() implies precedes(
            keys,
            #[trigger] order[a],
            #[trigger] order[b],
        ) by {
            if a == p {
                assert(order[b] == before[b - 1]);
                if b - 1 > p {
                    assert(precedes(keys, before[p], before[b - 1]));
                    lemma_precedes_transitive(keys, last, before[p], before[b - 1]);
                }
            } else if b == p {
                assert(order[a] == before[a]);
            } else {
                let x = if a < p { a } else { a - 1 };
                let y = if b < p { b } else { b - 1 };
                assert(order[a] == before[x] && order[b] == before[y]);
                assert(precedes(keys, before[x], before[y]));
            }
        }
        order
    }
}

/// Items have an order, whatever their weights and names.
pub proof fn law_order_exists(keys: Seq<(int, Seq<char>)>)
    ensures
        is_order(keys, order_of(keys)),
{
    let order = lemma_order(keys, keys.len() as int);
    assert(is_order(keys, order));
}

/// One name comes before another if and only if it is the beginning of the other or has the smaller
/// character where they first differ.
pub proof fn law_names_by_characters(a: Seq<char>, b: Seq<char>)
    ensures
        name_less(a, b) == exists|k: int|
            0 <= k < b.len() && k <= a.len() && #[trigger] a.take(k) == b.take(k) && (k == a.len()
                || (a[k] as u32) < (b[k] as u32)),
    decreases a.len(),
{
    if a.len() > 0 && b.len() > 0 && a[0] == b[0] {
        let x = a.drop_first();
        let y = b.drop_first();
        law_names_by_characters(x, y);
        if name_less(a, b) {
            let k = choose|k: int|
                0 <= k < y.len() && k <= x.len() && #[trigger] x.take(k) == y.take(k) && (k == x.len()
                    || (x[k] as u32) < (y[k] as u32));
            assert(a.take(k + 1) =~= seq![a[0]] + x.take(k));
            assert(b.take(k + 1) =~= seq![b[0]] + y.take(k));
            assert(a.take(k + 1) == b.take(k + 1));
        }
        if exists|k: int|
            0 <= k < b.len() && k <= a.len() && #[trigger] a.take(k) == b.take(k) && (k == a.len()
                || (a[k] as u32) < (b[k] as u32)) {
            let k = choose|k: int|
                0 <= k < b.len() && k <= a.len() && #[trigger] a.take(k) == b.take(k) && (k == a.len()
                    || (a[k] as u32) < (b[k] as u32));
            assert(k > 0);
            assert(x.take(k - 1) =~= a.take(k).drop_first());
            assert(y.take(k - 1) =~= b.take(k).drop_first());
            assert(x.take(k - 1) == y.take(k - 1));
        }
    } else {
        assert(a.take(0) =~= b.take(0));
        if exists|k: int|
            0 <= k < b.len() && k <= a.len() && #[trigger] a.take(k) == b.take(k) && (k == a.len()
                || (a[k] as u32) < (b[k] as u32)) {
            let k = choose|k: int|
                0 <= k < b.len() && k <= a.len() && #[trigger] a.take(k) == b.take(k) && (k == a.len()
                    || (a[k] as u32) < (b[k] as u32));
            if k > 0 {
                assert(a.take(k)[0] == a[0]);
                assert(b.take(k)[0] == b[0]);
            }
        }
        if a.len() > 0 && b.len() > 0 {
            vstd::utf8::char_u32_cast(a[0], a[0] as u32);
            vstd::utf8::char_u32_cast(b[0], b[0] as u32);
        }
    }
}

/// The order of some items lists each of them once, and of two items the one with the larger weight
/// stands first, then the one whose name comes first, then the one that was given first.
pub proof fn law_sorted(keys: Seq<(int, Seq<char>)>)
    ensures
        order_of(keys).len() == keys.len(),
        order_of(keys).no_duplicates(),
        forall|a: int| 0 <= a < keys.len() ==> 0 <= #[trigger] order_of(keys)[a] < keys.len(),
        forall|i: int| 0 <= i < keys.len() ==> #[trigger] order_of(keys).contains(i),
        forall|a: int, b: int|
            0 <= a < b < keys.len() ==> {
                let x = #[trigger] order_of(keys)[a];
                let y = #[trigger] order_of(keys)[b];
                &&& keys[x].0 >= keys[y].0
                &&& keys[x].0 == keys[y].0 ==> keys[x].1 == keys[y].1 || name_less(
                    keys[x].1,
                    keys[y].1,
                )
                &&& keys[x].0 == keys[y].0 && keys[x].1 == keys[y].1 ==> x < y
            },
{
    law_order_exists(keys);
    let order = order_of(keys);
    assert forall|a: int, b: int| 0 <= a < b < order.len() implies order[a] != order[b] by {
        assert(precedes(keys, order[a], order[b]));
        lemma_less_irreflexive(keys[order[a]].1);
    }
    assert forall|a: int, b: int| 0 <= a < b < keys.len() implies {
        let x = #[trigger] order[a];
        let y = #[trigger] order[b];
        &&& keys[x].0 >= keys[y].0
        &&& keys[x].0 == keys[y].0 ==> keys[x].1 == keys[y].1 || name_less(keys[x].1, keys[y].1)
        &&& keys[x].0 == keys[y].0 && keys[x].1 == keys[y].1 ==> x < y
    } by {
        assert(precedes(keys, order[a], order[b]));
        lemma_less_irreflexive(keys[order[a]].1);
    }
}

/// Whether `a` comes before `b` in the order of their characters.
pub fn name_before(a: &str, b: &str) -> (r: bool)
    ensures
        r == name_less(a@, b@),
{
    let x = text::chars_of(a);
    let y = text::chars_of(b);
    let mut i: usize = 0;
    assert(x@.skip(0) =~= x@ && y@.skip(0) =~= y@);
    while i < x.len() && i < y.len() && x[i] == y[i]
        invariant
            i <= x@.len(),
            i <= y@.len(),
            x@ == a@,
            y@ == b@,
            name_less(a@, b@) == name_less(x@.skip(i as int), y@.skip(i as int)),
        decreases x@.len() - i,
    {
        proof {
            assert(x@.skip(i as int).drop_first() =~= x@.skip(i + 1));
            assert(y@.skip(i as int).drop_first() =~= y@.skip(i + 1));
        }
        i += 1;
    }
    if i >= y.len() {
        false
    } else if i >= x.len() {
        true
    } else {
        let c: char = x[i];
        let d: char = y[i];
        (c as u32) < (d as u32)
    }
}

/// Whether item `i` stands before item `j`.
fn comes_first(keys: &Vec<SortKey>, i: usize, j: usize) -> (r: bool)
    requires
        i < keys@.len(),
        j < keys@.len(),
    ensures
        r == precedes(key_views(keys@), i as int, j as int),
{
    if keys[i].weight != keys[j].weight {
        keys[i].weight > keys[j].weight
    } else if keys[i].name == keys[j].name {
        proof {
            lemma_less_irreflexive(keys@[i as int].name@);
        }
        i < j
    } else {
        name_before(keys[i].name.as_str(), keys[j].name.as_str())
    }
}

/// Merges the orders of two neighbouring ranges.
fn merge(
    keys: &Vec<SortKey>,
    a: &Vec<usize>,
    b: &Vec<usize>,
    lo: usize,
    mid: usize,
    hi: usize,
) -> (r: Vec<usize>)
    requires
        lo <= mid <= hi <= keys@.len(),
        orders_range(key_views(keys@), lo as int, mid as int, positions(a@)),
        orders_range(key_views(keys@), mid as int, hi as int, positions(b@)),
    ensures
        orders_range(key_views(keys@), lo as int, hi as int, positions(r@)),
{
    let ghost kv = key_views(keys@);
    let ghost pa = positions(a@);
    let ghost pb = positions(b@);
    let mut out: Vec<usize> = Vec::new();
    let mut x: usize = 0;
    let mut y: usize = 0;
    while x < a.len() || y < b.len()
        invariant
            lo <= mid <= hi <= keys@.len(),
            kv == key_views(keys@),
            pa == positions(a@),
            pb == positions(b@),
            orders_range(kv, lo as int, mid as int, pa),
            orders_range(kv, mid as int, hi as int, pb),
            x <= a@.len(),
            y <= b@.len(),
            out@.len() == x + y,
            forall|k: int| 0 <= k < out@.len() ==> lo <= #[trigger] positions(out@)[k] < hi,
            forall|k: int| 0 <= k < x ==> positions(out@).contains(#[trigger] pa[k]),
            forall|k: int| 0 <= k < y ==> positions(out@).contains(#[trigger] pb[k]),
            forall|k: int, l: int|
                0 <= k < l < out@.len() ==> precedes(
                    kv,
                    #[trigger] positions(out@)[k],
                    #[trigger] positions(out@)[l],
                ),
            forall|k: int|
                0 <= k < out@.len() && x < a@.len() ==> precedes(
                    kv,
                    #[trigger] positions(out@)[k],
                    pa[x as int],
                ),
            forall|k: int|
                0 <= k < out@.len() && y < b@.len() ==> precedes(
                    kv,
                    #[trigger] positions(out@)[k],
                    pb[y as int],
                ),
        decreases a@.len() - x + b@.len() - y,
    {
        let ghost before = positions(out@);
        let take_a = if y >= b.len() {
            true
        } else if x >= a.len() {
            false
        } else {
            proof {
                assert(pa[x as int] < mid <= pb[y as int]);
                lemma_precedes_total(kv, pa[x as int], pb[y as int]);
            }
            assert(lo <= pa[x as int] < mid);
            comes_first(keys, a[x], b[y])
        };
        let next: usize = if take_a {
            a[x]
        } else {
            b[y]
        };
        let ghost n = next as int;
        proof {
            if take_a {
                assert(n == pa[x as int]);
                if x + 1 < a@.len() {
                    assert(precedes(kv, pa[x as int], pa[x + 1]));
                    assert forall|k: int| 0 <= k < before.len() implies precedes(
                        kv,
                        #[trigger] before[k],
                        pa[x + 1],
                    ) by {
                        lemma_precedes_transitive(kv, before[k], n, pa[x + 1]);
                    }
                }
                if y < b@.len() {
                    assert(precedes(kv, n, pb[y as int]));
                }
            } else {
                assert(n == pb[y as int]);
                if y + 1 < b@.len() {
                    assert(precedes(kv, pb[y as int], pb[y + 1]));
                    assert forall|k: int| 0 <= k < before.len() implies precedes(
                        kv,
                        #[trigger] before[k],
                        pb[y + 1],
                    ) by {
                        lemma_precedes_transitive(kv, before[k], n, pb[y + 1]);
                    }
                }
                if x < a@.len() {
                    assert(precedes(kv, n, pa[x as int]));
                }
            }
        }
        out.push(next);
        proof {
            let after = positions(out@);
            assert(after =~= before.push(n));
            assert forall|k: int| 0 <= k < x implies after.contains(#[trigger] pa[k]) by {
                assert(before.contains(pa[k]));
                let p = choose|p: int| 0 <= p < before.len() && before[p] == pa[k];
                assert(after[p] == pa[k]);
            }
            assert forall|k: int| 0 <= k < y implies after.contains(#[trigger] pb[k]) by {
                assert(before.contains(pb[k]));
                let p = choose|p: int| 0 <= p < before.len() && before[p] == pb[k];
                assert(after[p] == pb[k]);
            }
            assert(after[before.len() as int] == n);
        }
        if take_a {
            x += 1;
        } else {
            y += 1;
        }
    }
    proof {
        let all = positions(out@);
        assert forall|i: int| lo <= i < hi implies #[trigger] all.contains(i) by {
            if i < mid {
                assert(pa.contains(i));
                let p = choose|p: int| 0 <= p < pa.len() && pa[p] == i;
                assert(all.contains(pa[p]));
            } else {
                assert(pb.contains(i));
                let p = choose|p: int| 0 <= p < pb.len() && pb[p] == i;
                assert(all.contains(pb[p]));
            }
        }
    }
    out
}

/// The order of the items from `lo` to `hi`.
fn sort_range(keys: &Vec<SortKey>, lo: usize, hi: usize) -> (r: Vec<usize>)
    requires
        lo <= hi <= keys@.len(),
    ensures
        orders_range(key_views(keys@), lo as int, hi as int, positions(r@)),
    decreases hi - lo,
{
    if hi - lo <= 1 {
        let mut out: Vec<usize> = Vec::new();
        if lo < hi {
            out.push(lo);
            assert(positions(out@)[0] == lo);
        }
        out
    } else {
        let mid: usize = lo + (hi - lo) / 2;
        let a = sort_range(keys, lo, mid);
        let b = sort_range(keys, mid, hi);
        merge(keys, &a, &b, lo, mid, hi)
    }
}

/// The order of some items.
pub fn sort(keys: &Vec<SortKey>) -> (r: Vec<usize>)
    ensures
        is_order(key_views(keys@), positions(r@)),
        positions(r@) == order_of(key_views(keys@)),
{
    let order = sort_range(keys, 0, keys.len());
    proof {
        law_order_unique(
            key_views(keys@),
            positions(order@),
            order_of(key_views(keys@)),
        );
    }
    order
}

}
