//! Stable ordering by rank.
//!
//! A rank is a number and a text; ranks compare by number first and by text,
//! lexicographically, second. A stable sort puts items in the order of their
//! ranks and keeps items of equal rank in the order in which they came.

use vstd::prelude::*;
use vstd::seq_lib::seq_to_set_is_finite;
use vstd::set_lib::{lemma_int_range, lemma_subset_equality, set_int_range};
use crate::text::{
    chars_before, lemma_lex_lt_asymmetric, lemma_lex_lt_negative_transitive, lex_lt,
};

verus! {

/// The rank by which an item is ordered.
#[derive(Debug)]
pub struct OrderKey {
    pub number: u128,
    pub text: Vec<char>,
}

/// A rank as a mathematical value.
pub type Rank = (nat, Seq<char>);

impl View for OrderKey {
    type V = Rank;

    open spec fn view(&self) -> Rank {
        (self.number as nat, self.text@)
    }
}

/// Strict order on ranks: by number, then by text.
pub open spec fn rank_lt(a: Rank, b: Rank) -> bool {
    a.0 < b.0 || (a.0 == b.0 && lex_lt(a.1, b.1))
}

/// Whether rank `a` must come before rank `b` in the chosen direction.
pub open spec fn rank_before(a: Rank, b: Rank, descending: bool) -> bool {
    if descending {
        rank_lt(b, a)
    } else {
        rank_lt(a, b)
    }
}

/// Whether the item that came at index `ia` with rank `a` belongs before the
/// item that came at index `ib` with rank `b`: by rank, and by arrival
/// among equal ranks.
pub open spec fn belongs_before(a: Rank, ia: int, b: Rank, ib: int, descending: bool) -> bool {
    rank_before(a, b, descending) || (!rank_before(b, a, descending) && ia < ib)
}

/// Whether `p` lists each index below `n` at most once and nothing else.
pub open spec fn is_arrangement(p: Seq<int>, n: nat) -> bool {
    &&& p.len() == n
    &&& forall|k: int| 0 <= k < n ==> 0 <= #[trigger] p[k] < n
    &&& forall|a: int, b: int| 0 <= a < b < n ==> p[a] != p[b]
}

/// Whether positions `a` and `b` of the arrangement `p` are in order.
pub open spec fn pair_in_order(
    p: Seq<int>,
    ranks: Seq<Rank>,
    descending: bool,
    a: int,
    b: int,
) -> bool {
    belongs_before(ranks[p[a]], p[a], ranks[p[b]], p[b], descending)
}

/// Whether the arrangement `p` of the items with `ranks` is their stable order.
pub open spec fn is_stable_order(p: Seq<int>, ranks: Seq<Rank>, descending: bool) -> bool {
    &&& is_arrangement(p, ranks.len())
    &&& forall|a: int, b: int|
        0 <= a < b < p.len() ==> #[trigger] pair_in_order(p, ranks, descending, a, b)
}

/// Whether `out` holds the items of `input` in the arrangement `p`.
pub open spec fn arranged_by<T>(out: Seq<T>, input: Seq<T>, p: Seq<int>) -> bool {
    &&& out.len() == p.len()
    &&& forall|k: int| 0 <= k < out.len() ==> #[trigger] out[k] == input[p[k]]
}

/// Whether `out` is `input` stably sorted by `ranks`, where `ranks[i]` is the
/// rank of `input[i]`.
pub open spec fn is_stable_sort<T>(
    out: Seq<T>,
    input: Seq<T>,
    ranks: Seq<Rank>,
    descending: bool,
) -> bool {
    exists|p: Seq<int>| #[trigger]
        is_stable_order(p, ranks, descending) && arranged_by(out, input, p)
}

pub open spec fn ranks_of(keys: Seq<OrderKey>) -> Seq<Rank> {
    keys.map_values(|k: OrderKey| k@)
}

pub proof fn lemma_rank_before_asymmetric(a: Rank, b: Rank, descending: bool)
    requires
        rank_before(a, b, descending),
    ensures
        !rank_before(b, a, descending),
{
    if a.0 == b.0 {
        if descending {
            lemma_lex_lt_asymmetric(b.1, a.1);
        } else {
            lemma_lex_lt_asymmetric(a.1, b.1);
        }
    }
}

/// If `a` does not belong after `b`, nor `b` after `c`, then `a` does not
/// belong after `c`.
pub proof fn lemma_rank_before_negative_transitive(a: Rank, b: Rank, c: Rank, descending: bool)
    requires
        !rank_before(b, a, descending),
        !rank_before(c, b, descending),
    ensures
        !rank_before(c, a, descending),
{
    if a.0 == b.0 && b.0 == c.0 {
        if descending {
            lemma_lex_lt_negative_transitive(c.1, b.1, a.1);
        } else {
            lemma_lex_lt_negative_transitive(a.1, b.1, c.1);
        }
    }
}

/// Whether `a` must come before `b` in the chosen direction.
pub fn key_before(a: &OrderKey, b: &OrderKey, descending: bool) -> (r: bool)
    ensures
        r == rank_before(a@, b@, descending),
{
    if descending {
        b.number < a.number || (b.number == a.number && chars_before(&b.text, &a.text))
    } else {
        a.number < b.number || (a.number == b.number && chars_before(&a.text, &b.text))
    }
}

/// Sorts `items` stably by `keys`, where `keys[i]` is the rank of `items[i]`.
pub fn sort_by_keys<T>(items: Vec<T>, keys: Vec<OrderKey>, descending: bool) -> (r: Vec<T>)
    requires
        items.len() == keys.len(),
    ensures
        is_stable_sort(r@, items@, ranks_of(keys@), descending),
{
    let mut items = items;
    let mut keys = keys;
    let ghost items0 = items@;
    let ghost ranks0 = ranks_of(keys@);
    let n: usize = items.len();
    let ghost mut p: Seq<int> = Seq::new(n as nat, |k: int| k);
    let mut i: usize = 0;
    while i < n
        invariant
            i <= n,
            items.len() == n,
            keys.len() == n,
            items0.len() == n,
            ranks0.len() == n,
            p.len() == n,
            forall|k: int| 0 <= k < n ==> 0 <= #[trigger] p[k] < n,
            forall|k: int| 0 <= k < n ==> #[trigger] items@[k] == items0[p[k]],
            forall|k: int| 0 <= k < n ==> (#[trigger] keys@[k])@ == ranks0[p[k]],
            forall|k: int| i <= k < n ==> #[trigger] p[k] == k,
            forall|k: int| 0 <= k < i ==> #[trigger] p[k] < i,
            forall|a: int, b: int| 0 <= a < b < n ==> p[a] != p[b],
            forall|a: int, b: int|
                0 <= a < b < i ==> #[trigger] pair_in_order(p, ranks0, descending, a, b),
        decreases n - i,
    {
        let mut j: usize = i;
        while j > 0 && key_before(&keys[i], &keys[j - 1], descending)
            invariant
                j <= i,
                i < n,
                keys.len() == n,
                forall|k: int|
                    j <= k < i ==> rank_before(keys@[i as int]@, (#[trigger] keys@[k])@, descending),
            decreases j,
        {
            j -= 1;
        }
        let ghost p_old = p;
        let ghost keys_old = keys@;
        let ghost items_old = items@;
        if j < i {
            let item = items.remove(i);
            items.insert(j, item);
            let key = keys.remove(i);
            keys.insert(j, key);
        }
        proof {
            p = p_old.remove(i as int).insert(j as int, p_old[i as int]);
            assert forall|k: int| 0 <= k < n implies #[trigger] p[k] == p_old[if k < j {
                k
            } else if k == j {
                i as int
            } else if k <= i {
                k - 1
            } else {
                k
            }] by {}
            assert forall|k: int| 0 <= k < n implies #[trigger] items@[k] == items_old[if k < j {
                k
            } else if k == j {
                i as int
            } else if k <= i {
                k - 1
            } else {
                k
            }] by {}
            assert forall|k: int| 0 <= k < n implies #[trigger] keys@[k] == keys_old[if k < j {
                k
            } else if k == j {
                i as int
            } else if k <= i {
                k - 1
            } else {
                k
            }] by {}
            assert forall|a: int, b: int| 0 <= a < b < i + 1 implies #[trigger] pair_in_order(
                p,
                ranks0,
                descending,
                a,
                b,
            ) by {
                let oa = if a < j { a } else if a == j { i as int } else { a - 1 };
                let ob = if b < j { b } else if b == j { i as int } else { b - 1 };
                assert(p[a] == p_old[oa] && p[b] == p_old[ob]);
                if a != j && b != j {
                    assert(pair_in_order(p_old, ranks0, descending, oa, ob));
                } else if a == j {
                    assert(rank_before(keys_old[i as int]@, keys_old[ob]@, descending));
                } else {
                    // b == j, so a < j and the item at j - 1 does not belong after the new one
                    assert(!rank_before(keys_old[i as int]@, keys_old[j - 1]@, descending));
                    if a < j - 1 {
                        assert(pair_in_order(p_old, ranks0, descending, a, j - 1));
                        if rank_before(ranks0[p_old[a]], ranks0[p_old[j - 1]], descending) {
                            lemma_rank_before_asymmetric(
                                ranks0[p_old[a]],
                                ranks0[p_old[j - 1]],
                                descending,
                            );
                        }
                        lemma_rank_before_negative_transitive(
                            ranks0[p_old[a]],
                            ranks0[p_old[j - 1]],
                            ranks0[p_old[i as int]],
                            descending,
                        );
                    }
                    assert(p_old[a] < i);
                }
            }
        }
        i += 1;
    }
    proof {
        assert(is_stable_order(p, ranks0, descending));
        assert(arranged_by(items@, items0, p));
    }
    items
}

/// An arrangement of the indices below `n` holds each of them.
pub proof fn lemma_arrangement_onto(p: Seq<int>, n: nat, v: int)
    requires
        is_arrangement(p, n),
        0 <= v < n,
    ensures
        exists|k: int| 0 <= k < n && p[k] == v,
{
    assert(p.no_duplicates());
    p.unique_seq_to_set();
    lemma_int_range(0, n as int);
    seq_to_set_is_finite(p);
    assert(p.to_set().subset_of(set_int_range(0, n as int))) by {
        assert forall|x: int| p.to_set().contains(x) implies set_int_range(0, n as int).contains(
            x,
        ) by {
            let k = choose|k: int| 0 <= k < p.len() && p[k] == x;
            assert(0 <= p[k] < n);
        }
    }
    lemma_subset_equality(p.to_set(), set_int_range(0, n as int));
    assert(set_int_range(0, n as int).contains(v));
    assert(p.to_set().contains(v));
    assert(p.contains(v));
}

/// Of two items at different places at most one belongs before the other.
pub proof fn lemma_belongs_before_asymmetric(a: Rank, ia: int, b: Rank, ib: int, descending: bool)
    requires
        belongs_before(a, ia, b, ib, descending),
    ensures
        !belongs_before(b, ib, a, ia, descending),
{
    if rank_before(a, b, descending) {
        lemma_rank_before_asymmetric(a, b, descending);
    }
    if rank_before(b, a, descending) {
        lemma_rank_before_asymmetric(b, a, descending);
    }
}

/// Two stable orders of the same ranks agree on their first `k` places.
proof fn lemma_stable_orders_agree(
    p: Seq<int>,
    q: Seq<int>,
    ranks: Seq<Rank>,
    descending: bool,
    k: int,
)
    requires
        is_stable_order(p, ranks, descending),
        is_stable_order(q, ranks, descending),
        0 <= k <= ranks.len(),
    ensures
        forall|j: int| 0 <= j < k ==> p[j] == q[j],
    decreases k,
{
    if k > 0 {
        lemma_stable_orders_agree(p, q, ranks, descending, k - 1);
        let at = k - 1;
        let x = p[at];
        let y = q[at];
        if x != y {
            lemma_arrangement_onto(q, ranks.len(), x);
            let m = choose|m: int| 0 <= m < ranks.len() && q[m] == x;
            lemma_arrangement_onto(p, ranks.len(), y);
            let w = choose|w: int| 0 <= w < ranks.len() && p[w] == y;
            if m < at {
                assert(p[m] == q[m]);
                assert(p[m] != p[at]);
            }
            if w < at {
                assert(q[w] == p[w]);
                assert(q[w] != q[at]);
            }
            assert(pair_in_order(q, ranks, descending, at, m));
            assert(pair_in_order(p, ranks, descending, at, w));
            lemma_belongs_before_asymmetric(ranks[y], y, ranks[x], x, descending);
        }
    }
}

/// The items have one stable order only.
pub proof fn lemma_stable_order_unique(
    p: Seq<int>,
    q: Seq<int>,
    ranks: Seq<Rank>,
    descending: bool,
)
    requires
        is_stable_order(p, ranks, descending),
        is_stable_order(q, ranks, descending),
    ensures
        p == q,
{
    lemma_stable_orders_agree(p, q, ranks, descending, ranks.len() as int);
    assert(p =~= q);
}

/// Sorting is determined: two stable sorts of the same items by the same
/// ranks in the same direction are the same sequence.
pub proof fn lemma_stable_sort_unique<T>(
    a: Seq<T>,
    b: Seq<T>,
    input: Seq<T>,
    ranks: Seq<Rank>,
    descending: bool,
)
    requires
        is_stable_sort(a, input, ranks, descending),
        is_stable_sort(b, input, ranks, descending),
    ensures
        a == b,
{
    let p = choose|p: Seq<int>| #[trigger]
        is_stable_order(p, ranks, descending) && arranged_by(a, input, p);
    let q = choose|q: Seq<int>| #[trigger]
        is_stable_order(q, ranks, descending) && arranged_by(b, input, q);
    lemma_stable_order_unique(p, q, ranks, descending);
    assert(a =~= b);
}

/// Sorting changes nothing where the items already come in order: where no
/// item belongs before one that comes earlier, the stable sort is the input.
pub proof fn lemma_sort_of_ordered<T>(
    out: Seq<T>,
    input: Seq<T>,
    ranks: Seq<Rank>,
    descending: bool,
)
    requires
        input.len() == ranks.len(),
        forall|a: int, b: int|
            0 <= a < b < ranks.len() ==> !rank_before(
                #[trigger] ranks[b],
                #[trigger] ranks[a],
                descending,
            ),
        is_stable_sort(out, input, ranks, descending),
    ensures
        out == input,
{
    let same = Seq::new(ranks.len(), |k: int| k);
    assert forall|a: int, b: int| 0 <= a < b < same.len() implies #[trigger] pair_in_order(
        same,
        ranks,
        descending,
        a,
        b,
    ) by {
        assert(!rank_before(ranks[b], ranks[a], descending));
    }
    assert(is_stable_order(same, ranks, descending));
    assert(arranged_by(input, input, same));
    lemma_stable_sort_unique(out, input, input, ranks, descending);
}

/// Sorting what was sorted before, in whatever direction, gives what sorting
/// the first sequence gives: where `mid` is a stable sort of `input` in one
/// direction and `out` a stable sort of `mid` in another, both by the rank
/// `rank_of` of each item, `out` is the stable sort of `input` in the second
/// direction.
pub proof fn lemma_sort_after_sort<T>(
    input: Seq<T>,
    mid: Seq<T>,
    out: Seq<T>,
    rank_of: spec_fn(T) -> Rank,
    first_descending: bool,
    descending: bool,
)
    requires
        is_stable_sort(mid, input, input.map_values(rank_of), first_descending),
        is_stable_sort(out, mid, mid.map_values(rank_of), descending),
    ensures
        is_stable_sort(out, input, input.map_values(rank_of), descending),
{
    let ranks = input.map_values(rank_of);
    let mid_ranks = mid.map_values(rank_of);
    let p = choose|p: Seq<int>| #[trigger]
        is_stable_order(p, ranks, first_descending) && arranged_by(mid, input, p);
    let q = choose|q: Seq<int>| #[trigger]
        is_stable_order(q, mid_ranks, descending) && arranged_by(out, mid, q);
    let n = input.len();
    let r = Seq::new(n, |k: int| p[q[k]]);
    assert forall|k: int| 0 <= k < n implies 0 <= #[trigger] r[k] < n by {
        assert(0 <= q[k] < n);
        assert(0 <= p[q[k]] < n);
    }
    assert forall|a: int, b: int| 0 <= a < b < n implies r[a] != r[b] by {
        assert(0 <= q[a] < n && 0 <= q[b] < n);
        assert(q[a] != q[b]);
    }
    assert forall|a: int, b: int| 0 <= a < b < n implies #[trigger] pair_in_order(
        r,
        ranks,
        descending,
        a,
        b,
    ) by {
        assert(0 <= q[a] < n && 0 <= q[b] < n);
        assert(pair_in_order(q, mid_ranks, descending, a, b));
        assert(mid[q[a]] == input[p[q[a]]]);
        assert(mid[q[b]] == input[p[q[b]]]);
        assert(mid_ranks[q[a]] == ranks[r[a]]);
        assert(mid_ranks[q[b]] == ranks[r[b]]);
        if !rank_before(ranks[r[a]], ranks[r[b]], descending) {
            assert(q[a] < q[b]);
            assert(pair_in_order(p, ranks, first_descending, q[a], q[b]));
        }
    }
    assert(is_stable_order(r, ranks, descending));
    assert forall|k: int| 0 <= k < out.len() implies #[trigger] out[k] == input[r[k]] by {
        assert(0 <= q[k] < n);
        assert(out[k] == mid[q[k]]);
    }
    assert(arranged_by(out, input, r));
}

/// Sorting twice by the same rank in the same direction changes nothing
/// after the first time.
pub proof fn lemma_sort_twice<T>(
    input: Seq<T>,
    once: Seq<T>,
    twice: Seq<T>,
    rank_of: spec_fn(T) -> Rank,
    descending: bool,
)
    requires
        is_stable_sort(once, input, input.map_values(rank_of), descending),
        is_stable_sort(twice, once, once.map_values(rank_of), descending),
    ensures
        twice == once,
{
    lemma_sort_after_sort(input, once, twice, rank_of, descending, descending);
    lemma_stable_sort_unique(twice, once, input, input.map_values(rank_of), descending);
}

/// Sorting in the reverse direction and then in the first direction again
/// restores the order that the first sort gave.
pub proof fn lemma_reverse_and_back<T>(
    input: Seq<T>,
    sorted: Seq<T>,
    reversed: Seq<T>,
    back: Seq<T>,
    rank_of: spec_fn(T) -> Rank,
    descending: bool,
)
    requires
        is_stable_sort(sorted, input, input.map_values(rank_of), descending),
        is_stable_sort(reversed, sorted, sorted.map_values(rank_of), !descending),
        is_stable_sort(back, reversed, reversed.map_values(rank_of), descending),
    ensures
        back == sorted,
{
    lemma_sort_after_sort(sorted, reversed, back, rank_of, !descending, descending);
    lemma_sort_twice(input, sorted, back, rank_of, descending);
}

} // verus!
