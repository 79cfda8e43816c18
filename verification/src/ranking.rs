//! Choosing the busiest processes: a stable ranking by CPU usage, then by
//! memory, both descending, cut to the first few.  CPU usage is given as an
//! integer key that orders as the usage does.
use vstd::prelude::*;

verus! {

/// How many processes a snapshot lists.
pub const TOP_PROCESS_LIMIT: usize = 5;

/// Whether a process with key `a` ranks strictly ahead of one with key `b`:
/// more CPU, or equal CPU and more memory.
pub open spec fn ranks_ahead(a: (u32, u64), b: (u32, u64)) -> bool {
    a.0 > b.0 || (a.0 == b.0 && a.1 > b.1)
}

/// `i` placed into `order` ahead of the trailing entries it ranks ahead of,
/// and after every other entry.
pub open spec fn insert_ranked(order: Seq<usize>, keys: Seq<(u32, u64)>, i: usize) -> Seq<usize>
    decreases order.len(),
{
    if order.len() > 0 && ranks_ahead(keys[i as int], keys[order.last() as int]) {
        insert_ranked(order.drop_last(), keys, i).push(order.last())
    } else {
        order.push(i)
    }
}

/// The indices `0..n` stably ordered by rank, best first.
pub open spec fn ranked(keys: Seq<(u32, u64)>, n: nat) -> Seq<usize>
    decreases n,
{
    if n == 0 {
        Seq::empty()
    } else {
        insert_ranked(ranked(keys, (n - 1) as nat), keys, (n - 1) as usize)
    }
}

/// The indices of the best `limit` processes, best first.
pub open spec fn top_ranked(keys: Seq<(u32, u64)>, limit: nat) -> Seq<usize> {
    let all = ranked(keys, keys.len());
    if limit < all.len() {
        all.take(limit as int)
    } else {
        all
    }
}

/// An order of indices in which no entry ranks ahead of an earlier one.
pub open spec fn rank_ordered(order: Seq<usize>, keys: Seq<(u32, u64)>) -> bool {
    forall|p: int, q: int|
        0 <= p < q < order.len() ==> !ranks_ahead(
            keys[#[trigger] order[q] as int],
            keys[#[trigger] order[p] as int],
        )
}

/// Inserting at `j` agrees with `insert_ranked` when `i` ranks ahead of
/// every entry from `j` on and not ahead of the one before `j`.
proof fn lemma_insert_ranked_at(order: Seq<usize>, keys: Seq<(u32, u64)>, i: usize, j: int)
    requires
        0 <= j <= order.len(),
        forall|m: int| j <= m < order.len() ==> ranks_ahead(keys[i as int], keys[#[trigger] order[m] as int]),
        j > 0 ==> !ranks_ahead(keys[i as int], keys[order[j - 1] as int]),
    ensures
        insert_ranked(order, keys, i) == order.take(j).push(i) + order.skip(j),
    decreases order.len(),
{
    if j == order.len() {
        assert(order.take(j).push(i) + order.skip(j) =~= order.push(i));
    } else {
        let d = order.drop_last();
        assert(ranks_ahead(keys[i as int], keys[order[order.len() - 1] as int]));
        assert forall|m: int| j <= m < d.len() implies ranks_ahead(
            keys[i as int],
            keys[#[trigger] d[m] as int],
        ) by {
            assert(d[m] == order[m]);
        }
        if j > 0 {
            assert(d[j - 1] == order[j - 1]);
        }
        lemma_insert_ranked_at(d, keys, i, j);
        assert(d.take(j).push(i) + d.skip(j) + seq![order.last()] =~= order.take(j).push(i)
            + order.skip(j));
    }
}

/// Inserting keeps every index and adds `i`.
proof fn lemma_insert_ranked_multiset(order: Seq<usize>, keys: Seq<(u32, u64)>, i: usize)
    ensures
        insert_ranked(order, keys, i).to_multiset() == order.to_multiset().insert(i),
    decreases order.len(),
{
    broadcast use vstd::seq_lib::group_to_multiset_ensures;

    if order.len() > 0 && ranks_ahead(keys[i as int], keys[order.last() as int]) {
        lemma_insert_ranked_multiset(order.drop_last(), keys, i);
        assert(order =~= order.drop_last().push(order.last()));
    }
}

/// Inserting into a ranked order keeps it ranked.
proof fn lemma_insert_ranked_ordered(order: Seq<usize>, keys: Seq<(u32, u64)>, i: usize)
    requires
        rank_ordered(order, keys),
    ensures
        rank_ordered(insert_ranked(order, keys, i), keys),
    decreases order.len(),
{
    broadcast use vstd::seq_lib::group_to_multiset_ensures;

    let r = insert_ranked(order, keys, i);
    if order.len() > 0 && ranks_ahead(keys[i as int], keys[order.last() as int]) {
        let d = order.drop_last();
        let l = order.last();
        assert(rank_ordered(d, keys)) by {
            assert forall|p: int, q: int| 0 <= p < q < d.len() implies !ranks_ahead(
                keys[#[trigger] d[q] as int],
                keys[#[trigger] d[p] as int],
            ) by {
                assert(d[q] == order[q] && d[p] == order[p]);
            }
        }
        lemma_insert_ranked_ordered(d, keys, i);
        lemma_insert_ranked_multiset(d, keys, i);
        let inner = insert_ranked(d, keys, i);
        assert forall|p: int, q: int| 0 <= p < q < r.len() implies !ranks_ahead(
            keys[#[trigger] r[q] as int],
            keys[#[trigger] r[p] as int],
        ) by {
            if q == r.len() - 1 {
                let e = inner[p];
                assert(inner.to_multiset().count(e) > 0);
                assert(d.to_multiset().insert(i).count(e) > 0);
                if e != i {
                    assert(d.to_multiset().count(e) > 0);
                    assert(d.contains(e));
                    let k = choose|k: int| 0 <= k < d.len() && d[k] == e;
                    assert(order[k] == e);
                    assert(!ranks_ahead(keys[order[order.len() - 1] as int], keys[order[k] as int]));
                }
            } else {
                assert(r[p] == inner[p] && r[q] == inner[q]);
            }
        }
    } else {
        assert forall|p: int, q: int| 0 <= p < q < r.len() implies !ranks_ahead(
            keys[#[trigger] r[q] as int],
            keys[#[trigger] r[p] as int],
        ) by {
            if q == r.len() - 1 {
                if p < order.len() - 1 {
                    assert(!ranks_ahead(keys[order[order.len() - 1] as int], keys[order[p] as int]));
                }
                assert(r[p] == order[p]);
            } else {
                assert(r[p] == order[p] && r[q] == order[q]);
            }
        }
    }
}

/// The ranking holds each index below `n` once, and no index ranks ahead
/// of an earlier one.
proof fn lemma_ranked_sorts(keys: Seq<(u32, u64)>, n: nat)
    ensures
        ranked(keys, n).to_multiset() == Seq::new(n, |k: int| k as usize).to_multiset(),
        rank_ordered(ranked(keys, n), keys),
    decreases n,
{
    broadcast use vstd::seq_lib::group_to_multiset_ensures;

    if n > 0 {
        let m = (n - 1) as nat;
        lemma_ranked_sorts(keys, m);
        lemma_insert_ranked_multiset(ranked(keys, m), keys, m as usize);
        lemma_insert_ranked_ordered(ranked(keys, m), keys, m as usize);
        assert(Seq::new(n, |k: int| k as usize) =~= Seq::new(m, |k: int| k as usize).push(
            m as usize,
        ));
    }
}

/// The chosen processes are the best ones: none left out ranks ahead of one
/// chosen, the chosen come best first, and each index is chosen at most once.
pub proof fn lemma_top_ranked_are_the_best(keys: Seq<(u32, u64)>, limit: nat)
    requires
        keys.len() <= usize::MAX,
    ensures
        top_ranked(keys, limit).len() == if limit < keys.len() {
            limit as int
        } else {
            keys.len() as int
        },
        rank_ordered(top_ranked(keys, limit), keys),
        top_ranked(keys, limit).no_duplicates(),
        forall|x: usize, p: int|
            0 <= x < keys.len() && 0 <= p < top_ranked(keys, limit).len()
                && !top_ranked(keys, limit).contains(x) ==> !ranks_ahead(
                #[trigger] keys[x as int],
                keys[#[trigger] top_ranked(keys, limit)[p] as int],
            ),
{
    broadcast use vstd::seq_lib::group_to_multiset_ensures;

    let n = keys.len();
    let all = ranked(keys, n);
    let ids = Seq::new(n, |k: int| k as usize);
    let top = top_ranked(keys, limit);
    lemma_ranked_sorts(keys, n);
    assert(all.len() == n) by {
        assert(all.to_multiset().len() == ids.to_multiset().len());
    }
    assert(ids.no_duplicates()) by {
        assert forall|p: int, q: int| 0 <= p < ids.len() && 0 <= q < ids.len() && p != q implies ids[p]
            != ids[q] by {
            assert(ids[p] == p as usize && ids[q] == q as usize);
        }
    }
    ids.lemma_multiset_has_no_duplicates();
    all.lemma_multiset_has_no_duplicates_conv();
    assert forall|p: int, q: int| 0 <= p < q < top.len() implies !ranks_ahead(
        keys[#[trigger] top[q] as int],
        keys[#[trigger] top[p] as int],
    ) by {
        assert(top[p] == all[p] && top[q] == all[q]);
    }
    assert forall|p: int, q: int| 0 <= p < top.len() && 0 <= q < top.len() && p != q implies top[p]
        != top[q] by {
        assert(top[p] == all[p] && top[q] == all[q]);
        assert(all.no_duplicates());
    }
    assert forall|x: usize, p: int|
        0 <= x < keys.len() && 0 <= p < top.len() && !top.contains(x) implies !ranks_ahead(
        #[trigger] keys[x as int],
        keys[#[trigger] top[p] as int],
    ) by {
        assert(ids[x as int] == x);
        assert(ids.to_multiset().count(x) > 0);
        assert(all.to_multiset().count(x) > 0);
        assert(all.contains(x));
        let q = choose|q: int| 0 <= q < all.len() && all[q] == x;
        if q < top.len() {
            assert(top[q] == x);
        }
        assert(top[p] == all[p]);
    }
}

/// Whether key `a` ranks strictly ahead of key `b`.
fn ahead(a: (u32, u64), b: (u32, u64)) -> (r: bool)
    ensures
        r == ranks_ahead(a, b),
{
    a.0 > b.0 || (a.0 == b.0 && a.1 > b.1)
}

/// The ranking is by CPU, then memory, both descending: when process `x`
/// has more CPU than `y`, or the same CPU and more memory, then `x` is
/// chosen whenever `y` is, and comes before it.
pub proof fn lemma_more_cpu_or_memory_comes_first(
    keys: Seq<(u32, u64)>,
    limit: nat,
    x: usize,
    y: usize,
)
    requires
        keys.len() <= usize::MAX,
        x < keys.len(),
        y < keys.len(),
        keys[x as int].0 > keys[y as int].0 || (keys[x as int].0 == keys[y as int].0
            && keys[x as int].1 > keys[y as int].1),
        top_ranked(keys, limit).contains(y),
    ensures
        top_ranked(keys, limit).contains(x),
        forall|p: int, q: int|
            0 <= p < top_ranked(keys, limit).len() && 0 <= q < top_ranked(keys, limit).len()
                && #[trigger] top_ranked(keys, limit)[p] == x && #[trigger] top_ranked(
                keys,
                limit,
            )[q] == y ==> p < q,
{
    let top = top_ranked(keys, limit);
    lemma_top_ranked_are_the_best(keys, limit);
    let q = choose|q: int| 0 <= q < top.len() && top[q] == y;
    if !top.contains(x) {
        assert(!ranks_ahead(keys[x as int], keys[top[q] as int]));
    }
    assert forall|p: int, q2: int|
        0 <= p < top.len() && 0 <= q2 < top.len() && #[trigger] top[p] == x && #[trigger] top[q2]
            == y implies p < q2 by {
        if q2 < p {
            assert(!ranks_ahead(keys[top[p] as int], keys[top[q2] as int]));
        }
    }
}

/// Inserts index `i` into the ranked indices.
fn insert_index(order: &mut Vec<usize>, keys: &Vec<(u32, u64)>, i: usize)
    requires
        i < keys.len(),
        forall|m: int| 0 <= m < old(order)@.len() ==> #[trigger] old(order)@[m] < keys.len(),
    ensures
        final(order)@ == insert_ranked(old(order)@, keys@, i),
        forall|m: int| 0 <= m < final(order)@.len() ==> #[trigger] final(order)@[m] < keys.len(),
{
    let ghost s = order@;
    let key = keys[i];
    let mut j = order.len();
    while j > 0 && ahead(key, keys[order[j - 1]])
        invariant
            s == order@,
            j <= order.len(),
            i < keys.len(),
            key == keys@[i as int],
            forall|m: int| 0 <= m < order@.len() ==> #[trigger] order@[m] < keys.len(),
            forall|m: int|
                j <= m < s.len() ==> ranks_ahead(keys@[i as int], keys@[#[trigger] s[m] as int]),
        decreases j,
    {
        j -= 1;
    }
    proof {
        lemma_insert_ranked_at(s, keys@, i, j as int);
    }
    order.insert(j, i);
    assert(order@ =~= s.take(j as int).push(i) + s.skip(j as int));
    assert forall|m: int| 0 <= m < order@.len() implies #[trigger] order@[m] < keys.len() by {
        if m < j {
            assert(order@[m] == s[m]);
        } else if m > j {
            assert(order@[m] == s[m - 1]);
        }
    }
}

/// The indices of the busiest processes, best first: processes are ranked by
/// their CPU key, then their memory, both descending, keeping the given
/// order among equals; at most `TOP_PROCESS_LIMIT` are chosen.
pub fn top_process_indices(keys: &Vec<(u32, u64)>) -> (r: Vec<usize>)
    ensures
        r@ == top_ranked(keys@, TOP_PROCESS_LIMIT as nat),
{
    let mut order: Vec<usize> = Vec::new();
    let mut i: usize = 0;
    while i < keys.len()
        invariant
            i <= keys.len(),
            order@ == ranked(keys@, i as nat),
            forall|m: int| 0 <= m < order@.len() ==> #[trigger] order@[m] < keys.len(),
        decreases keys.len() - i,
    {
        insert_index(&mut order, keys, i);
        i += 1;
    }
    proof {
        lemma_ranked_sorts(keys@, keys@.len());
        assert(order@.to_multiset().len() == Seq::new(keys@.len(), |k: int| k as usize).to_multiset().len());
    }
    if TOP_PROCESS_LIMIT < order.len() {
        order.truncate(TOP_PROCESS_LIMIT);
    }
    order
}

} // verus!
