//! Lists that are made of others item by item.
use vstd::prelude::*;

verus! {

/// What is made of a list by adding a part for each item is those parts, one behind the other.
pub proof fn lemma_parts<A, B>(
    items: Seq<A>,
    part: spec_fn(A) -> Seq<B>,
    whole: spec_fn(Seq<A>) -> Seq<B>,
)
    requires
        forall|s: Seq<A>| #[trigger]
            whole(s) == (if s.len() == 0 {
                Seq::empty()
            } else {
                whole(s.drop_last()) + part(s.last())
            }),
    ensures
        whole(items) == items.map_values(part).flatten(),
    decreases items.len(),
{
    let parts = items.map_values(part);
    if items.len() == 0 {
        assert(whole(items) == Seq::<B>::empty());
        assert(parts.flatten() =~= Seq::<B>::empty());
    } else {
        lemma_parts(items.drop_last(), part, whole);
        let before = items.drop_last().map_values(part);
        before.lemma_flatten_push(part(items.last()));
        assert(before.push(part(items.last())) =~= parts);
    }
}

/// What is made of a list by keeping some of its items and showing each of them is the items that
/// are kept, shown.
pub proof fn lemma_kept<A, B>(
    items: Seq<A>,
    keep: spec_fn(A) -> bool,
    show: spec_fn(A) -> B,
    whole: spec_fn(Seq<A>) -> Seq<B>,
)
    requires
        forall|s: Seq<A>| #[trigger]
            whole(s) == (if s.len() == 0 {
                Seq::empty()
            } else if keep(s.last()) {
                whole(s.drop_last()).push(show(s.last()))
            } else {
                whole(s.drop_last())
            }),
    ensures
        whole(items) == items.filter(keep).map_values(show),
    decreases items.len(),
{
    reveal(Seq::filter);
    if items.len() > 0 {
        lemma_kept(items.drop_last(), keep, show, whole);
        let before = items.drop_last().filter(keep);
        if keep(items.last()) {
            assert(before.push(items.last()).map_values(show) =~= before.map_values(show).push(
                show(items.last()),
            ));
        }
    }
    assert(whole(items) =~= items.filter(keep).map_values(show));
}

/// What counts some of the items of a list is how many are kept.
pub proof fn lemma_count<A>(
    items: Seq<A>,
    keep: spec_fn(A) -> bool,
    whole: spec_fn(Seq<A>) -> nat,
)
    requires
        forall|s: Seq<A>| #[trigger]
            whole(s) == (if s.len() == 0 {
                0
            } else {
                whole(s.drop_last()) + (if keep(s.last()) {
                    1nat
                } else {
                    0nat
                })
            }),
    ensures
        whole(items) == items.filter(keep).len(),
    decreases items.len(),
{
    reveal(Seq::filter);
    if items.len() > 0 {
        lemma_count(items.drop_last(), keep, whole);
    }
}

/// What adds up a number for each item of a list adds up over two lists, one behind the other.
pub proof fn lemma_sum<A>(
    a: Seq<A>,
    b: Seq<A>,
    number: spec_fn(A) -> nat,
    whole: spec_fn(Seq<A>) -> nat,
)
    requires
        forall|s: Seq<A>| #[trigger]
            whole(s) == (if s.len() == 0 {
                0
            } else {
                whole(s.drop_last()) + number(s.last())
            }),
    ensures
        whole(a + b) == whole(a) + whole(b),
        forall|x: A| #[trigger] whole(seq![x]) == number(x),
    decreases b.len(),
{
    assert forall|x: A| #[trigger] whole(seq![x]) == number(x) by {
        assert(seq![x].drop_last() =~= Seq::<A>::empty());
        assert(whole(Seq::<A>::empty()) == 0);
        assert(seq![x].last() == x);
    }
    assert(whole(a + b) == whole(a) + whole(b)) by {
        if b.len() == 0 {
            assert(a + b =~= a);
            assert(whole(b) == 0);
        } else {
            lemma_sum(a, b.drop_last(), number, whole);
            assert((a + b).drop_last() =~= a + b.drop_last());
            assert((a + b).last() == b.last());
        }
    }
}

/// What is kept of a list is what the list holds and the choice lets through.
pub proof fn lemma_kept_items<A>(items: Seq<A>, keep: spec_fn(A) -> bool, item: A)
    ensures
        items.filter(keep).contains(item) == (items.contains(item) && keep(item)),
    decreases items.len(),
{
    reveal(Seq::filter);
    if items.len() > 0 {
        let short = items.drop_last();
        lemma_kept_items(short, keep, item);
        let before = short.filter(keep);
        let after = items.filter(keep);
        if short.contains(item) {
            let k = choose|k: int| 0 <= k < short.len() && short[k] == item;
            assert(items[k] == item);
        }
        if items.contains(item) && items.last() != item {
            let k = choose|k: int| 0 <= k < items.len() && items[k] == item;
            assert(short[k] == item);
        }
        if before.contains(item) {
            let k = choose|k: int| 0 <= k < before.len() && before[k] == item;
            assert(after[k] == item);
        }
        if keep(items.last()) {
            assert(after[before.len() as int] == items.last());
            assert(items[items.len() - 1] == items.last());
            if after.contains(item) && item != items.last() {
                let k = choose|k: int| 0 <= k < after.len() && after[k] == item;
                assert(before[k] == item);
            }
        }
    }
}

/// A part of some parts, one behind the other, stands among them.
pub proof fn lemma_part_stands<B>(parts: Seq<Seq<B>>, k: int)
    requires
        0 <= k < parts.len(),
    ensures
        parts.flatten() == parts.take(k).flatten() + parts[k] + parts.skip(k + 1).flatten(),
{
    let before = parts.take(k);
    let after = parts.skip(k + 1);
    assert(parts =~= before.push(parts[k]) + after);
    vstd::seq_lib::lemma_flatten_concat(before.push(parts[k]), after);
    before.lemma_flatten_push(parts[k]);
}

/// Two choices that agree keep the same.
pub proof fn lemma_same_choice<A>(items: Seq<A>, a: spec_fn(A) -> bool, b: spec_fn(A) -> bool)
    requires
        forall|x: A| #[trigger] a(x) == b(x),
    ensures
        items.filter(a) == items.filter(b),
    decreases items.len(),
{
    reveal(Seq::filter);
    if items.len() > 0 {
        lemma_same_choice(items.drop_last(), a, b);
        assert(a(items.last()) == b(items.last()));
    }
}

/// A choice among what is kept, where it keeps only what would be kept anyway.
pub proof fn lemma_chosen_again<A>(items: Seq<A>, a: spec_fn(A) -> bool, b: spec_fn(A) -> bool)
    requires
        forall|x: A| #[trigger] b(x) ==> a(x),
    ensures
        items.filter(a).filter(b) == items.filter(b),
    decreases items.len(),
{
    reveal(Seq::filter);
    if items.len() > 0 {
        lemma_chosen_again(items.drop_last(), a, b);
        let before = items.drop_last().filter(a);
        assert(before.push(items.last()).drop_last() =~= before);
    }
}

/// A choice among what is kept, where it keeps nothing of that.
pub proof fn lemma_chosen_away<A>(items: Seq<A>, a: spec_fn(A) -> bool, b: spec_fn(A) -> bool)
    requires
        forall|x: A| #[trigger] b(x) ==> !a(x),
    ensures
        items.filter(a).filter(b) == Seq::<A>::empty(),
    decreases items.len(),
{
    reveal(Seq::filter);
    if items.len() > 0 {
        lemma_chosen_away(items.drop_last(), a, b);
        let before = items.drop_last().filter(a);
        assert(before.push(items.last()).drop_last() =~= before);
    }
    assert(items.filter(a).filter(b) =~= Seq::<A>::empty());
}

/// What is made of a list by adding a part for each item is, for two lists one behind the other,
/// what is made of the one and what is made of the other; for one item it is its part.
pub proof fn lemma_parts_add<A, B>(
    a: Seq<A>,
    b: Seq<A>,
    part: spec_fn(A) -> Seq<B>,
    whole: spec_fn(Seq<A>) -> Seq<B>,
)
    requires
        forall|s: Seq<A>| #[trigger]
            whole(s) == (if s.len() == 0 {
                Seq::empty()
            } else {
                whole(s.drop_last()) + part(s.last())
            }),
    ensures
        whole(a + b) == whole(a) + whole(b),
        forall|x: A| #[trigger] whole(seq![x]) == part(x),
    decreases b.len(),
{
    assert forall|x: A| #[trigger] whole(seq![x]) == part(x) by {
        assert(seq![x].drop_last() =~= Seq::<A>::empty());
        assert(whole(Seq::<A>::empty()) == Seq::<B>::empty());
        assert(seq![x].last() == x);
        assert(Seq::<B>::empty() + part(x) =~= part(x));
    }
    assert(whole(a + b) == whole(a) + whole(b)) by {
        if b.len() == 0 {
            assert(a + b =~= a);
            assert(whole(b) == Seq::<B>::empty());
            assert(whole(a) + whole(b) =~= whole(a));
        } else {
            lemma_parts_add(a, b.drop_last(), part, whole);
            assert((a + b).drop_last() =~= a + b.drop_last());
            assert((a + b).last() == b.last());
            assert(whole(a + b) =~= whole(a) + whole(b));
        }
    }
}

/// What is made of two lists of one length by adding a part for each two items that stand at one
/// place is those parts, one behind the other.
pub proof fn lemma_parts_of_two<A, B, C>(
    items: Seq<A>,
    others: Seq<B>,
    part: spec_fn(A, B) -> Seq<C>,
    whole: spec_fn(Seq<A>, Seq<B>) -> Seq<C>,
)
    requires
        items.len() == others.len(),
        forall|s: Seq<A>, t: Seq<B>|
            s.len() > 0 ==> whole(s, t) == whole(s.drop_last(), t.drop_last()) + #[trigger] part(
                s.last(),
                t.last(),
            ),
        forall|s: Seq<A>, t: Seq<B>| s.len() == 0 ==> #[trigger] whole(s, t) == Seq::<C>::empty(),
    ensures
        whole(items, others) == Seq::new(
            items.len(),
            |i: int| part(items[i], others[i]),
        ).flatten(),
    decreases items.len(),
{
    let parts = Seq::new(items.len(), |i: int| part(items[i], others[i]));
    if items.len() == 0 {
        assert(whole(items, others) == Seq::<C>::empty());
        assert(parts.flatten() =~= Seq::<C>::empty());
    } else {
        let a = items.drop_last();
        let b = others.drop_last();
        lemma_parts_of_two(a, b, part, whole);
        let before = Seq::new(a.len(), |i: int| part(a[i], b[i]));
        before.lemma_flatten_push(part(items.last(), others.last()));
        assert(before.push(part(items.last(), others.last())) =~= parts);
    }
}

}
