//! Batch requests: the uncached items of a batch are grouped by the set of
//! endpoints that may serve them, each group is forwarded as one sub-batch,
//! and the answers are put back in the order of the batch.
use crate::health::pool::{eligible_for, ChainPool};
use crate::health::pool::PoolView;
use crate::health::state::bumped;
use crate::metrics::ChainMetrics;
use crate::proxy::request::ProxyReply;
use vstd::prelude::*;
use vstd::string::*;

verus! {

/// Items of a batch that go to the same set of endpoints.
#[derive(Debug)]
pub struct RoutingGroup {
    /// The endpoints eligible for every item of the group.
    pub eligible: Vec<usize>,
    /// The positions of the group's items, in increasing order.
    pub positions: Vec<usize>,
}

/// A routing group as plain values: eligible set and positions.
pub open spec fn group_view(g: RoutingGroup) -> (Seq<usize>, Seq<usize>) {
    (g.eligible@, g.positions@)
}

/// `groups` splits the positions `0..sets.len()` by equal eligible sets:
/// each group holds, in increasing order, exactly the positions whose set is
/// the group's, no two groups share a set, and groups come in the order in
/// which their first position appears.
pub open spec fn grouped_by_set(sets: Seq<Seq<usize>>, groups: Seq<(Seq<usize>, Seq<usize>)>) -> bool {
    &&& forall|g: int| 0 <= g < groups.len() ==> (#[trigger] groups[g]).1.len() > 0
    &&& forall|g: int, k: int|
        0 <= g < groups.len() && 0 <= k < groups[g].1.len() ==> {
            &&& 0 <= (#[trigger] groups[g].1[k]) < sets.len()
            &&& sets[groups[g].1[k] as int] == groups[g].0
        }
    &&& forall|g: int, k: int, l: int|
        0 <= g < groups.len() && 0 <= k < l < groups[g].1.len() ==> (#[trigger] groups[g].1[k])
            < (#[trigger] groups[g].1[l])
    &&& forall|p: int|
        #![trigger sets[p]]
        0 <= p < sets.len() ==> exists|g: int|
            0 <= g < groups.len() && (#[trigger] groups[g]).0 == sets[p] && groups[g].1.contains(
                p as usize,
            )
    &&& forall|g: int, h: int| 0 <= g < h < groups.len() ==> (#[trigger] groups[g]).0 != (#[trigger] groups[h]).0
    &&& forall|g: int, h: int|
        0 <= g < h < groups.len() ==> (#[trigger] groups[g]).1[0] < (#[trigger] groups[h]).1[0]
}

/// Whether two index lists are equal.
fn same_indices(a: &Vec<usize>, b: &Vec<usize>) -> (r: bool)
    ensures
        r == (a@ == b@),
{
    if a.len() != b.len() {
        return false;
    }
    let mut i: usize = 0;
    while i < a.len()
        invariant
            a@.len() == b@.len(),
            i <= a@.len(),
            forall|j: int| 0 <= j < i ==> a@[j] == b@[j],
        decreases a@.len() - i,
    {
        if a[i] != b[i] {
            return false;
        }
        i = i + 1;
    }
    assert(a@ =~= b@);
    true
}

/// Copies an index list.
fn copy_indices(a: &Vec<usize>) -> (r: Vec<usize>)
    ensures
        r@ == a@,
{
    let r = a.clone();
    assert(r@ =~= a@);
    r
}

proof fn lemma_group_extend(sv: Seq<Seq<usize>>, p: int, gv: Seq<(Seq<usize>, Seq<usize>)>, g: int)
    requires
        grouped_by_set(sv.take(p), gv),
        0 <= p < sv.len(),
        p < usize::MAX,
        0 <= g < gv.len(),
        gv[g].0 == sv[p],
    ensures
        grouped_by_set(sv.take(p + 1), gv.update(g, (gv[g].0, gv[g].1.push(p as usize)))),
{
    let old_take = sv.take(p);
    let new_take = sv.take(p + 1);
    let old_g = gv[g];
    let nv = gv.update(g, (old_g.0, old_g.1.push(p as usize)));
    assert forall|q: int| #![trigger new_take[q]] 0 <= q < new_take.len() implies exists|h: int|
        0 <= h < nv.len() && (#[trigger] nv[h]).0 == new_take[q] && nv[h].1.contains(q as usize) by {
        if q == p {
            assert(nv[g].1[old_g.1.len() as int] == p as usize);
        } else {
            assert(old_take[q] == new_take[q]);
            let h = choose|h: int|
                0 <= h < gv.len() && (#[trigger] gv[h]).0 == old_take[q] && gv[h].1.contains(q as usize);
            let k = choose|k: int| 0 <= k < gv[h].1.len() && gv[h].1[k] == q as usize;
            assert(nv[h].1[k] == q as usize);
        }
    }
    assert forall|h: int, k: int| 0 <= h < nv.len() && 0 <= k < nv[h].1.len() implies {
        &&& 0 <= (#[trigger] nv[h].1[k]) < new_take.len()
        &&& new_take[nv[h].1[k] as int] == nv[h].0
    } by {
        if h != g || k < old_g.1.len() {
            assert(nv[h].1[k] == gv[h].1[k]);
            assert(old_take[gv[h].1[k] as int] == gv[h].0);
        }
    }
    assert forall|h: int, k: int, l: int|
        0 <= h < nv.len() && 0 <= k < l < nv[h].1.len() implies (#[trigger] nv[h].1[k]) < (
        #[trigger] nv[h].1[l]) by {
        if h == g && l == old_g.1.len() {
            assert(gv[h].1[k] < old_take.len());
        } else {
            assert(gv[h].1[k] < gv[h].1[l]);
        }
    }
    assert forall|h: int, h2: int| 0 <= h < h2 < nv.len() implies (#[trigger] nv[h]).1[0] < (
    #[trigger] nv[h2]).1[0] by {
        assert(gv[h].1[0] < gv[h2].1[0]);
        assert(gv[h].1.len() > 0 && gv[h2].1.len() > 0);
    }
    assert forall|h: int, h2: int| 0 <= h < h2 < nv.len() implies (#[trigger] nv[h]).0 != (
    #[trigger] nv[h2]).0 by {
        assert(gv[h].0 != gv[h2].0);
    }
}

proof fn lemma_group_new(sv: Seq<Seq<usize>>, p: int, gv: Seq<(Seq<usize>, Seq<usize>)>)
    requires
        grouped_by_set(sv.take(p), gv),
        0 <= p < sv.len(),
        p < usize::MAX,
        forall|h: int| 0 <= h < gv.len() ==> (#[trigger] gv[h]).0 != sv[p],
    ensures
        grouped_by_set(sv.take(p + 1), gv.push((sv[p], seq![p as usize]))),
{
    let old_take = sv.take(p);
    let new_take = sv.take(p + 1);
    let nv = gv.push((sv[p], seq![p as usize]));
    assert(nv[gv.len() as int].1 =~= seq![p as usize]);
    assert(nv[gv.len() as int].1.len() == 1);
    assert forall|h: int| 0 <= h < nv.len() implies (#[trigger] nv[h]).1.len() > 0 by {
        if h < gv.len() {
            assert(gv[h].1.len() > 0);
        }
    }
    assert forall|q: int| #![trigger new_take[q]] 0 <= q < new_take.len() implies exists|h: int|
        0 <= h < nv.len() && (#[trigger] nv[h]).0 == new_take[q] && nv[h].1.contains(q as usize) by {
        if q == p {
            assert(nv[gv.len() as int].1[0] == p as usize);
        } else {
            assert(old_take[q] == new_take[q]);
            let h = choose|h: int|
                0 <= h < gv.len() && (#[trigger] gv[h]).0 == old_take[q] && gv[h].1.contains(q as usize);
            let k = choose|k: int| 0 <= k < gv[h].1.len() && gv[h].1[k] == q as usize;
            assert(nv[h].1[k] == q as usize);
        }
    }
    assert forall|h: int, k: int| 0 <= h < nv.len() && 0 <= k < nv[h].1.len() implies {
        &&& 0 <= (#[trigger] nv[h].1[k]) < new_take.len()
        &&& new_take[nv[h].1[k] as int] == nv[h].0
    } by {
        if h < gv.len() {
            assert(nv[h].1[k] == gv[h].1[k]);
            assert(old_take[gv[h].1[k] as int] == gv[h].0);
        }
    }
    assert forall|h: int, k: int, l: int|
        0 <= h < nv.len() && 0 <= k < l < nv[h].1.len() implies (#[trigger] nv[h].1[k]) < (
        #[trigger] nv[h].1[l]) by {
        if h < gv.len() {
            assert(gv[h].1[k] < gv[h].1[l]);
        }
    }
    assert forall|h: int, h2: int| 0 <= h < h2 < nv.len() implies (#[trigger] nv[h]).0 != (
    #[trigger] nv[h2]).0 by {
        if h2 < gv.len() {
            assert(gv[h].0 != gv[h2].0);
        } else {
            assert(gv[h].0 != sv[p]);
        }
    }
    assert forall|h: int, h2: int| 0 <= h < h2 < nv.len() implies (#[trigger] nv[h]).1[0] < (
    #[trigger] nv[h2]).1[0] by {
        assert(gv[h].1.len() > 0);
        assert(gv[h].1[0] < old_take.len());
        if h2 < gv.len() {
            assert(gv[h].1[0] < gv[h2].1[0]);
        }
    }
}

/// Groups the positions of a batch by their eligible endpoint sets
/// (`sets[p]` for position `p`), in order of first appearance.
pub fn group_by_eligible(sets: &Vec<Vec<usize>>) -> (r: Vec<RoutingGroup>)
    ensures
        grouped_by_set(sets.deep_view(), r@.map_values(|g: RoutingGroup| group_view(g))),
{
    let ghost sv = sets.deep_view();
    let mut groups: Vec<RoutingGroup> = Vec::new();
    let mut p: usize = 0;
    while p < sets.len()
        invariant
            sv == sets.deep_view(),
            p <= sets@.len(),
            grouped_by_set(sv.take(p as int), groups@.map_values(|g: RoutingGroup| group_view(g))),
        decreases sets@.len() - p,
    {
        let ghost gv = groups@.map_values(|g: RoutingGroup| group_view(g));
        let mut g: usize = 0;
        let mut found = false;
        while g < groups.len()
            invariant_except_break
                !found,
            invariant
                g <= groups@.len(),
                gv == groups@.map_values(|x: RoutingGroup| group_view(x)),
                sv == sets.deep_view(),
                p < sets@.len(),
                forall|h: int| 0 <= h < g ==> (#[trigger] gv[h]).0 != sv[p as int],
            ensures
                found ==> g < groups@.len() && gv[g as int].0 == sv[p as int],
                !found ==> g == groups@.len(),
            decreases groups@.len() - g,
        {
            assert(sv[p as int] == sets@[p as int]@);
            if same_indices(&groups[g].eligible, &sets[p]) {
                found = true;
                break;
            }
            g = g + 1;
        }
        let ghost old_take = sv.take(p as int);
        let ghost new_take = sv.take(p + 1);
        assert(sv[p as int] == sets@[p as int]@);
        if found {
            let mut positions = copy_indices(&groups[g].positions);
            positions.push(p);
            let eligible = copy_indices(&groups[g].eligible);
            let ghost old_g = gv[g as int];
            let ng = RoutingGroup { eligible, positions };
            groups.set(g, ng);
            proof {
                assert(groups@.map_values(|x: RoutingGroup| group_view(x)) =~= gv.update(
                    g as int,
                    (old_g.0, old_g.1.push(p)),
                ));
                lemma_group_extend(sv, p as int, gv, g as int);
            }
        } else {
            let eligible = copy_indices(&sets[p]);
            let mut positions: Vec<usize> = Vec::new();
            positions.push(p);
            groups.push(RoutingGroup { eligible, positions });
            proof {
                assert(groups@.map_values(|x: RoutingGroup| group_view(x)) =~= gv.push(
                    (sv[p as int], seq![p]),
                ));
                lemma_group_new(sv, p as int, gv);
            }
        }
        p = p + 1;
    }
    assert(sv.take(sets@.len() as int) =~= sv);
    groups
}

/// The first of the first `k` methods for which no endpoint is eligible.
pub open spec fn first_unroutable(p: PoolView, methods: Seq<Seq<char>>, k: int) -> Option<int>
    decreases k,
{
    if k <= 0 {
        None
    } else {
        match first_unroutable(p, methods, k - 1) {
            Some(i) => Some(i),
            None => if eligible_for(p, methods[k - 1]).len() == 0 {
                Some(k - 1)
            } else {
                None
            },
        }
    }
}

/// The eligible endpoint sets of the given methods.
pub open spec fn eligible_sets(p: PoolView, methods: Seq<Seq<char>>) -> Seq<Seq<usize>> {
    Seq::new(methods.len(), |i: int| eligible_for(p, methods[i]))
}

/// Routes the uncached items of a batch, given by their methods: each item
/// goes with the others that have the same eligible endpoints. When some
/// method has no eligible endpoint the whole batch fails (503), naming the
/// first such method, and counts `batch_len` failures.
pub fn route_batch(pool: &ChainPool, methods: &Vec<String>, batch_len: u64, metrics: &mut ChainMetrics) -> (r: Result<Vec<RoutingGroup>, ProxyReply>)
    ensures
        match first_unroutable(pool@, methods.deep_view(), methods@.len() as int) {
            Some(i) => {
                &&& r matches Err(e) && e.status == 503 && e.message@
                    == "No endpoints configured for method: "@ + methods@[i]@
                &&& *final(metrics) == (ChainMetrics {
                    failed_requests: bumped(old(metrics).failed_requests, batch_len),
                    ..*old(metrics)
                })
            },
            None => {
                &&& r matches Ok(groups) && grouped_by_set(
                    eligible_sets(pool@, methods.deep_view()),
                    groups@.map_values(|g: RoutingGroup| group_view(g)),
                )
                &&& *final(metrics) == *old(metrics)
            },
        },
{
    let ghost mv = methods.deep_view();
    let mut sets: Vec<Vec<usize>> = Vec::new();
    let mut i: usize = 0;
    while i < methods.len()
        invariant
            mv == methods.deep_view(),
            i <= methods@.len(),
            first_unroutable(pool@, mv, i as int) is None,
            sets@.len() == i,
            forall|j: int| 0 <= j < i ==> (#[trigger] sets@[j])@ == eligible_for(pool@, mv[j]),
            *metrics == *old(metrics),
        decreases methods@.len() - i,
    {
        assert(mv[i as int] == methods@[i as int]@);
        let eligible = pool.eligible_indices_for_method(methods[i].as_str());
        if eligible.len() == 0 {
            proof {
                lemma_first_unroutable_stable(pool@, mv, i + 1, methods@.len() as int);
            }
            metrics.record_failures(batch_len);
            return Err(
                ProxyReply {
                    status: 503,
                    message: String::from_str("No endpoints configured for method: ").concat(
                        methods[i].as_str(),
                    ),
                },
            );
        }
        sets.push(eligible);
        i = i + 1;
    }
    assert forall|j: int| 0 <= j < sets@.len() implies sets.deep_view()[j] == eligible_sets(pool@, mv)[j] by {
        assert(sets.deep_view()[j] == sets@[j]@);
    }
    assert(sets.deep_view() =~= eligible_sets(pool@, mv));
    Ok(group_by_eligible(&sets))
}

proof fn lemma_first_unroutable_stable(
    p: PoolView,
    methods: Seq<Seq<char>>,
    m: int,
    n: int,
)
    requires
        0 <= m <= n,
        first_unroutable(p, methods, m) is Some,
    ensures
        first_unroutable(p, methods, n) == first_unroutable(p, methods, m),
    decreases n - m,
{
    if m < n {
        lemma_first_unroutable_stable(p, methods, m, n - 1);
    }
}

/// The slots of a batch after the answers of one forwarded group: the k-th
/// answer fills the slot of the group's k-th item; surplus answers are
/// dropped and items without an answer keep their slot.
pub open spec fn placed<T>(slots: Seq<Option<T>>, positions: Seq<usize>, answers: Seq<T>) -> Seq<Option<T>> {
    Seq::new(
        slots.len(),
        |s: int|
            if exists|k: int| 0 <= k < positions.len() && k < answers.len() && positions[k] == s {
                Some(answers[choose|k: int| 0 <= k < positions.len() && k < answers.len() && positions[k] == s])
            } else {
                slots[s]
            },
    )
}

/// Puts the answers of a forwarded group back at the positions of its
/// items, as `placed` states.
pub fn place_answers<T>(slots: &mut Vec<Option<T>>, positions: &Vec<usize>, answers: Vec<T>)
    requires
        positions@.no_duplicates(),
        forall|k: int| 0 <= k < positions@.len() ==> (#[trigger] positions@[k]) < old(slots)@.len(),
    ensures
        final(slots)@ == placed(old(slots)@, positions@, answers@),
{
    let ghost a0 = answers@;
    let mut answers = answers;
    let n = if answers.len() < positions.len() {
        answers.len()
    } else {
        positions.len()
    };
    answers.truncate(n);
    let mut k: usize = n;
    while k > 0
        invariant
            k <= n,
            n <= positions@.len(),
            n <= a0.len(),
            answers@ == a0.take(k as int),
            positions@.no_duplicates(),
            forall|j: int| 0 <= j < positions@.len() ==> (#[trigger] positions@[j]) < old(slots)@.len(),
            slots@.len() == old(slots)@.len(),
            forall|s: int|
                0 <= s < slots@.len() ==> #[trigger] slots@[s] == if exists|j: int|
                    k <= j < n && positions@[j] == s {
                    Some(a0[choose|j: int| k <= j < n && positions@[j] == s])
                } else {
                    old(slots)@[s]
                },
        decreases k,
    {
        let answer = answers.pop().unwrap();
        k = k - 1;
        let pos = positions[k];
        let ghost before = slots@;
        slots.set(pos, Some(answer));
        proof {
            assert forall|s: int| 0 <= s < slots@.len() implies #[trigger] slots@[s] == if exists|j: int|
                k <= j < n && positions@[j] == s {
                Some(a0[choose|j: int| k <= j < n && positions@[j] == s])
            } else {
                old(slots)@[s]
            } by {
                if s == pos {
                    assert(positions@[k as int] == s);
                    let j = choose|j: int| k <= j < n && positions@[j] == s;
                    assert(j == k);
                } else {
                    if exists|j: int| k <= j < n && positions@[j] == s {
                        let j = choose|j: int| k <= j < n && positions@[j] == s;
                        assert(j != k);
                        assert(k + 1 <= j < n && positions@[j] == s);
                    }
                }
            }
            assert(answers@ =~= a0.take(k as int));
        }
    }
    assert(slots@ =~= placed(old(slots)@, positions@, a0));
}

/// The positions among the first `k` slots that hold no answer yet, in
/// increasing order.
pub open spec fn open_positions<T>(slots: Seq<Option<T>>, k: int) -> Seq<usize>
    decreases k,
{
    if k <= 0 {
        Seq::empty()
    } else {
        let prev = open_positions(slots, k - 1);
        if slots[k - 1] is None {
            prev.push((k - 1) as usize)
        } else {
            prev
        }
    }
}

proof fn lemma_open_positions_facts<T>(slots: Seq<Option<T>>, k: int)
    requires
        0 <= k <= slots.len(),
        slots.len() <= usize::MAX,
    ensures
        forall|a: int| 0 <= a < open_positions(slots, k).len() ==> {
            &&& (#[trigger] open_positions(slots, k)[a]) < k
            &&& slots[open_positions(slots, k)[a] as int] is None
        },
        forall|a: int, b: int|
            0 <= a < b < open_positions(slots, k).len() ==> (#[trigger] open_positions(slots, k)[a])
                < (#[trigger] open_positions(slots, k)[b]),
        forall|p: int| 0 <= p < k && slots[p] is None ==> open_positions(slots, k).contains(p as usize),
    decreases k,
{
    if k > 0 {
        lemma_open_positions_facts(slots, k - 1);
        let prev = open_positions(slots, k - 1);
        let cur = open_positions(slots, k);
        let last = (k - 1) as usize;
        assert(last as int == k - 1);
        if slots[k - 1] is None {
            assert(cur == prev.push(last));
            assert(cur[prev.len() as int] == last);
        } else {
            assert(cur == prev);
        }
        assert forall|a: int| 0 <= a < cur.len() implies {
            &&& (#[trigger] cur[a]) < k
            &&& slots[cur[a] as int] is None
        } by {
            if a < prev.len() {
                assert(cur[a] == prev[a]);
            }
        }
        assert forall|a: int, b: int| 0 <= a < b < cur.len() implies (#[trigger] cur[a]) < (
        #[trigger] cur[b]) by {
            assert(cur[a] == prev[a]);
            if b < prev.len() {
                assert(cur[b] == prev[b]);
            }
        }
        assert forall|p: int| 0 <= p < k && slots[p] is None implies cur.contains(p as usize) by {
            if p < k - 1 {
                assert(prev.contains(p as usize));
                let a = choose|a: int| 0 <= a < prev.len() && prev[a] == p as usize;
                assert(cur[a] == p as usize);
            } else {
                assert(cur[prev.len() as int] == p as usize);
            }
        }
    }
}

/// The positions of a batch whose items found no cached answer, in batch
/// order: these are the items to forward. An empty result means every item
/// was answered from the cache.
pub fn open_slots<T>(slots: &Vec<Option<T>>) -> (r: Vec<usize>)
    ensures
        r@ == open_positions(slots@, slots@.len() as int),
        r@.no_duplicates(),
        forall|a: int| 0 <= a < r@.len() ==> (#[trigger] r@[a]) < slots@.len() && slots@[r@[a] as int] is None,
        forall|p: int| 0 <= p < slots@.len() && slots@[p] is None ==> r@.contains(p as usize),
{
    let mut r: Vec<usize> = Vec::new();
    let mut i: usize = 0;
    while i < slots.len()
        invariant
            i <= slots@.len(),
            r@ == open_positions(slots@, i as int),
        decreases slots@.len() - i,
    {
        if slots[i].is_none() {
            r.push(i);
        }
        i = i + 1;
    }
    proof {
        lemma_open_positions_facts(slots@, slots@.len() as int);
        assert forall|a: int, b: int| 0 <= a < r@.len() && 0 <= b < r@.len() && a != b implies r@[a]
            != r@[b] by {
            if a < b {
                assert(r@[a] < r@[b]);
            } else {
                assert(r@[b] < r@[a]);
            }
        }
    }
    r
}

} // verus!
