//! Install ordering: the `requires` edges between tools, topologically
//! sorted, so a tool is installed only after everything it requires.

use vstd::prelude::*;

use crate::manifest::Tool;
use crate::text::{chars_of, seq_eq};

verus! {

/// Tool `i` lists the name of tool `j` among its `requires`.
pub open spec fn depends_on(tools: Seq<Tool>, i: int, j: int) -> bool {
    exists|k: int| 0 <= k < tools[i].requires@.len() && #[trigger] tools[i].requires@[k]@ == tools[j].name@
}

/// `order` lists every tool exactly once, each after every tool it requires.
pub open spec fn is_topo_order(tools: Seq<Tool>, order: Seq<usize>) -> bool {
    &&& order.len() == tools.len()
    &&& order.no_duplicates()
    &&& forall|p: int| 0 <= p < order.len() ==> (#[trigger] order[p] as int) < tools.len()
    &&& forall|i: int| 0 <= i < tools.len() ==> #[trigger] order.contains(i as usize)
    &&& forall|q: int, j: int|
        0 <= q < order.len() && 0 <= j < tools.len() && #[trigger] depends_on(tools, order[q] as int, j)
            ==> exists|p: int| 0 <= p < q && order[p] == j
}

/// Some order installs every tool after its requirements: the `requires`
/// edges have no cycle.
pub open spec fn acyclic(tools: Seq<Tool>) -> bool {
    exists|order: Seq<usize>| is_topo_order(tools, order)
}

/// Tool `i` requires some tool whose index is in `among`.
pub open spec fn requires_one_of(tools: Seq<Tool>, i: int, among: Seq<usize>) -> bool {
    exists|j: int| 0 <= j < tools.len() && #[trigger] depends_on(tools, i, j) && among.contains(j as usize)
}

/// The indices below `n` holding `false`, in order.
pub open spec fn false_upto(v: Seq<bool>, n: int) -> Seq<usize>
    decreases n,
{
    if n <= 0 {
        Seq::empty()
    } else if !v[n - 1] {
        false_upto(v, n - 1).push((n - 1) as usize)
    } else {
        false_upto(v, n - 1)
    }
}

/// Every tool listed in `among` requires another listed tool: following
/// `requires` from any of them never leaves the list.
pub open spec fn closed_among(tools: Seq<Tool>, among: Seq<usize>) -> bool {
    forall|k: int| 0 <= k < among.len() ==> (#[trigger] among[k] as int) < tools.len()
        && requires_one_of(tools, among[k] as int, among)
}

/// Tool `i` lies on a cycle of `requires`, or requires its way into one:
/// no install order can reach it.
pub open spec fn on_cycle(tools: Seq<Tool>, i: int) -> bool {
    exists|among: Seq<usize>| #[trigger] closed_among(tools, among) && among.contains(i as usize)
}

/// The indices below `n` of the tools a cycle leaves unordered, in order.
pub open spec fn cycle_indices(tools: Seq<Tool>, n: int) -> Seq<usize>
    decreases n,
{
    if n <= 0 {
        Seq::empty()
    } else if on_cycle(tools, n - 1) {
        cycle_indices(tools, n - 1).push((n - 1) as usize)
    } else {
        cycle_indices(tools, n - 1)
    }
}

proof fn lemma_prefix_outside(tools: Seq<Tool>, placed: Seq<bool>, order: Seq<usize>, among: Seq<usize>, q: int)
    requires
        placement_ok(tools, placed, order),
        closed_among(tools, among),
        0 <= q <= order.len(),
    ensures
        forall|p: int| 0 <= p < q ==> !among.contains(#[trigger] order[p]),
    decreases q,
{
    if q > 0 {
        lemma_prefix_outside(tools, placed, order, among, q - 1);
        if among.contains(order[q - 1]) {
            let k = choose|k: int| 0 <= k < among.len() && among[k] == order[q - 1];
            assert(requires_one_of(tools, among[k] as int, among));
            let j = choose|j: int| 0 <= j < tools.len() && #[trigger] depends_on(tools, among[k] as int, j)
                && among.contains(j as usize);
            assert(depends_on(tools, order[q - 1] as int, j));
            let p = choose|p: int| 0 <= p < q - 1 && order[p] == j;
            assert(!among.contains(order[p]));
        }
    }
}

/// No tool of a closed list is ever placed.
proof fn lemma_closed_never_placed(tools: Seq<Tool>, placed: Seq<bool>, order: Seq<usize>, among: Seq<usize>, i: int)
    requires
        placement_ok(tools, placed, order),
        closed_among(tools, among),
        among.contains(i as usize),
        0 <= i < tools.len(),
    ensures
        !placed[i],
{
    lemma_prefix_outside(tools, placed, order, among, order.len() as int);
    if placed[i] {
        assert(order.contains(i as usize));
        let p = choose|p: int| 0 <= p < order.len() && order[p] == i as usize;
        assert(!among.contains(order[p]));
    }
}

proof fn lemma_filters_agree(tools: Seq<Tool>, placed: Seq<bool>, n: int)
    requires
        0 <= n <= placed.len(),
        forall|i: int| 0 <= i < n ==> (!placed[i] <==> on_cycle(tools, i)),
    ensures
        false_upto(placed, n) == cycle_indices(tools, n),
    decreases n,
{
    if n > 0 {
        lemma_filters_agree(tools, placed, n - 1);
        assert(!placed[n - 1] <==> on_cycle(tools, n - 1));
    }
}

/// The tools Kahn's walk leaves unplaced are exactly those a cycle blocks.
proof fn lemma_stuck_exact(tools: Seq<Tool>, placed: Seq<bool>, order: Seq<usize>, stuck: Seq<usize>)
    requires
        placement_ok(tools, placed, order),
        stuck == false_upto(placed, tools.len() as int),
        forall|p: int| 0 <= p < stuck.len() ==> (#[trigger] stuck[p] as int) < tools.len(),
        forall|j: int| 0 <= j < tools.len() && !placed[j] ==> #[trigger] stuck.contains(j as usize),
        forall|k: int| 0 <= k < stuck.len() ==> requires_one_of(tools, #[trigger] stuck[k] as int, stuck),
    ensures
        stuck == cycle_indices(tools, tools.len() as int),
{
    assert(closed_among(tools, stuck));
    assert forall|ii: int| 0 <= ii < tools.len() implies (!placed[ii] <==> on_cycle(tools, ii)) by {
        if !placed[ii] {
            assert(stuck.contains(ii as usize));
        }
        if on_cycle(tools, ii) {
            let among = choose|among: Seq<usize>| #[trigger] closed_among(tools, among) && among.contains(ii as usize);
            lemma_closed_never_placed(tools, placed, order, among, ii);
        }
    }
    lemma_filters_agree(tools, placed, tools.len() as int);
}

/// The tools that could not be ordered.
#[derive(Debug, Clone)]
pub struct CycleError {
    /// Indices of the tools left unordered, each of which requires another
    /// of them.
    pub stuck: Vec<usize>,
}

pub open spec fn count_false(s: Seq<bool>) -> nat
    decreases s.len(),
{
    if s.len() == 0 {
        0
    } else {
        count_false(s.drop_last()) + if s.last() { 0nat } else { 1nat }
    }
}

proof fn lemma_count_false_update(s: Seq<bool>, i: int)
    requires
        0 <= i < s.len(),
        !s[i],
    ensures
        count_false(s.update(i, true)) + 1 == count_false(s),
    decreases s.len(),
{
    let u = s.update(i, true);
    if i == s.len() - 1 {
        assert(u.drop_last() == s.drop_last());
    } else {
        assert(u.drop_last() == s.drop_last().update(i, true));
        lemma_count_false_update(s.drop_last(), i);
    }
}

/// In any topological order, the first tool of a set closed under "has a
/// requirement in the set" would need one of its requirements before it.
proof fn lemma_first_unplaced(tools: Seq<Tool>, order: Seq<usize>, placed: Seq<bool>, p0: int) -> (p: int)
    requires
        0 <= p0 < order.len(),
        order.len() == tools.len(),
        placed.len() == tools.len(),
        forall|q: int| 0 <= q < order.len() ==> (#[trigger] order[q] as int) < tools.len(),
        !placed[order[p0] as int],
    ensures
        0 <= p <= p0,
        !placed[order[p] as int],
        forall|q: int| 0 <= q < p ==> placed[#[trigger] order[q] as int],
    decreases p0,
{
    if exists|q: int| 0 <= q < p0 && !placed[#[trigger] order[q] as int] {
        let q = choose|q: int| 0 <= q < p0 && !placed[#[trigger] order[q] as int];
        lemma_first_unplaced(tools, order, placed, q)
    } else {
        p0
    }
}

proof fn lemma_stuck_means_cycle(tools: Seq<Tool>, placed: Seq<bool>, i0: int)
    requires
        tools.len() <= usize::MAX,
        placed.len() == tools.len(),
        0 <= i0 < tools.len(),
        !placed[i0],
        forall|i: int|
            0 <= i < tools.len() && !placed[i] ==> exists|j: int|
                0 <= j < tools.len() && #[trigger] depends_on(tools, i, j) && !placed[j],
    ensures
        !acyclic(tools),
{
    if acyclic(tools) {
        let order = choose|order: Seq<usize>| is_topo_order(tools, order);
        assert(order.contains(i0 as usize));
        let p0 = choose|p: int| 0 <= p < order.len() && order[p] == i0 as usize;
        assert(order[p0] as int == i0);
        let p = lemma_first_unplaced(tools, order, placed, p0);
        let i = order[p] as int;
        let j = choose|j: int| 0 <= j < tools.len() && #[trigger] depends_on(tools, i, j) && !placed[j];
        assert(depends_on(tools, order[p] as int, j));
        let pp = choose|pp: int| 0 <= pp < p && order[pp] == j;
        assert(placed[order[pp] as int]);
    }
}

/// Whether every tool that `tools[i]` requires is already placed.
fn deps_placed(tools: &[Tool], i: usize, placed: &Vec<bool>) -> (r: bool)
    requires
        i < tools@.len(),
        placed@.len() == tools@.len(),
    ensures
        r == (forall|j: int| 0 <= j < tools@.len() && #[trigger] depends_on(tools@, i as int, j) ==> placed@[j]),
{
    let n = tools.len();
    let reqs = &tools[i].requires;
    let mut k: usize = 0;
    while k < reqs.len()
        invariant
            n == tools@.len(),
            placed@.len() == n,
            i < n,
            reqs == tools@[i as int].requires,
            k <= reqs@.len(),
            forall|kk: int, j: int|
                #![trigger reqs@[kk], tools@[j]]
                0 <= kk < k && 0 <= j < n && reqs@[kk]@ == tools@[j].name@ ==> placed@[j],
        decreases reqs.len() - k,
    {
        let rk = chars_of(reqs[k].as_str());
        let mut j: usize = 0;
        while j < n
            invariant
                n == tools@.len(),
                placed@.len() == n,
                i < n,
                reqs == tools@[i as int].requires,
                k < reqs@.len(),
                rk@ == reqs@[k as int]@,
                j <= n,
                forall|kk: int, jj: int|
                    #![trigger reqs@[kk], tools@[jj]]
                    0 <= kk < k && 0 <= jj < n && reqs@[kk]@ == tools@[jj].name@ ==> placed@[jj],
                forall|jj: int| 0 <= jj < j && reqs@[k as int]@ == tools@[jj].name@ ==> placed@[jj],
            decreases n - j,
        {
            let nm = chars_of(tools[j].name.as_str());
            if !placed[j] && seq_eq(&nm, &rk) {
                assert(depends_on(tools@, i as int, j as int));
                return false;
            }
            j = j + 1;
        }
        k = k + 1;
    }
    true
}

/// The bookkeeping invariant of `topo_order`.
pub open spec fn placement_ok(tools: Seq<Tool>, placed: Seq<bool>, order: Seq<usize>) -> bool {
    &&& placed.len() == tools.len()
    &&& order.no_duplicates()
    &&& forall|p: int| 0 <= p < order.len() ==> (#[trigger] order[p] as int) < tools.len()
    &&& forall|p: int| 0 <= p < order.len() ==> placed[#[trigger] order[p] as int]
    &&& forall|i: int| 0 <= i < tools.len() && placed[i] ==> #[trigger] order.contains(i as usize)
    &&& forall|q: int, j: int|
        0 <= q < order.len() && 0 <= j < tools.len() && #[trigger] depends_on(tools, order[q] as int, j)
            ==> exists|p: int| 0 <= p < q && order[p] == j
}

proof fn lemma_place(
    tools: Seq<Tool>,
    before: Seq<bool>,
    order_before: Seq<usize>,
    after: Seq<bool>,
    order: Seq<usize>,
    i: int,
)
    requires
        tools.len() <= usize::MAX,
        placement_ok(tools, before, order_before),
        0 <= i < tools.len(),
        !before[i],
        forall|j: int| 0 <= j < tools.len() && #[trigger] depends_on(tools, i, j) ==> before[j],
        after == before.update(i, true),
        order == order_before.push(i as usize),
    ensures
        placement_ok(tools, after, order),
{
    assert(order.last() == i);
    assert forall|p: int| 0 <= p < order.len() implies after[#[trigger] order[p] as int] by {
        if p < order_before.len() {
            assert(order[p] == order_before[p]);
        }
    }
    assert forall|ii: int| 0 <= ii < tools.len() && after[ii] implies #[trigger] order.contains(ii as usize) by {
        if ii != i {
            assert(order_before.contains(ii as usize));
            let w = choose|w: int| 0 <= w < order_before.len() && order_before[w] == ii as usize;
            assert(order[w] == ii as usize);
        } else {
            assert(order[order.len() - 1] == i as usize);
        }
    }
    assert forall|q: int, j: int|
        0 <= q < order.len() && 0 <= j < tools.len() && #[trigger] depends_on(tools, order[q] as int, j)
        implies exists|p: int| 0 <= p < q && order[p] == j by {
        if q < order_before.len() {
            assert(order[q] == order_before[q]);
            let p = choose|p: int| 0 <= p < q && order_before[p] == j;
            assert(order[p] == j);
        } else {
            assert(order[q] as int == i);
            assert(before[j]);
            assert(order_before.contains(j as usize));
            let p = choose|p: int| 0 <= p < order_before.len() && order_before[p] == j as usize;
            assert(order[p] == j);
        }
    }
    assert forall|a: int, b: int| 0 <= a < order.len() && 0 <= b < order.len() && a != b implies order[a] != order[b] by {
        if a < order_before.len() && b < order_before.len() {
            assert(order[a] == order_before[a]);
            assert(order[b] == order_before[b]);
        } else if a < order_before.len() {
            assert(before[order_before[a] as int]);
        } else {
            assert(before[order_before[b] as int]);
        }
    }
}

fn all_true(v: &Vec<bool>) -> (r: bool)
    ensures
        r == (forall|j: int| 0 <= j < v@.len() ==> v@[j]),
{
    let mut k: usize = 0;
    while k < v.len()
        invariant
            k <= v@.len(),
            forall|j: int| 0 <= j < k ==> v@[j],
        decreases v.len() - k,
    {
        if !v[k] {
            return false;
        }
        k = k + 1;
    }
    true
}

/// The indices holding `false`, in order.
fn false_indices(v: &Vec<bool>) -> (stuck: Vec<usize>)
    ensures
        forall|p: int| 0 <= p < stuck@.len() ==> (#[trigger] stuck@[p] as int) < v@.len(),
        forall|p: int| 0 <= p < stuck@.len() ==> !v@[#[trigger] stuck@[p] as int],
        forall|j: int| 0 <= j < v@.len() && !v@[j] ==> #[trigger] stuck@.contains(j as usize),
        stuck@ == false_upto(v@, v@.len() as int),
{
    let n = v.len();
    let mut stuck: Vec<usize> = Vec::new();
    let mut k: usize = 0;
    while k < n
        invariant
            v@.len() == n,
            k <= n,
            forall|p: int| 0 <= p < stuck@.len() ==> (#[trigger] stuck@[p] as int) < k,
            forall|p: int| 0 <= p < stuck@.len() ==> !v@[#[trigger] stuck@[p] as int],
            forall|j: int| 0 <= j < k && !v@[j] ==> #[trigger] stuck@.contains(j as usize),
            stuck@ == false_upto(v@, k as int),
        decreases n - k,
    {
        if !v[k] {
            let ghost sb = stuck@;
            stuck.push(k);
            proof {
                assert forall|j: int| 0 <= j < k + 1 && !v@[j] implies #[trigger] stuck@.contains(j as usize) by {
                    if j < k {
                        assert(sb.contains(j as usize));
                        let w = choose|w: int| 0 <= w < sb.len() && sb[w] == j as usize;
                        assert(stuck@[w] == j as usize);
                    } else {
                        assert(stuck@[stuck@.len() - 1] == j as usize);
                    }
                }
            }
        }
        k = k + 1;
    }
    stuck
}

/// Orders `tools` so each comes after everything it requires, or reports
/// the tools that a cycle leaves unordered.
#[verifier::rlimit(40)]
pub fn topo_order(tools: &[Tool]) -> (r: Result<Vec<usize>, CycleError>)
    ensures
        r is Ok <==> acyclic(tools@),
        match r {
            Ok(order) => is_topo_order(tools@, order@),
            Err(e) => e.stuck@ == cycle_indices(tools@, tools@.len() as int) && e.stuck@.len() > 0 && (forall|k: int| 0 <= k < e.stuck@.len() ==> (
            #[trigger] e.stuck@[k] as int) < tools@.len()) && forall|k: int|
                0 <= k < e.stuck@.len() ==> requires_one_of(tools@, #[trigger] e.stuck@[k] as int, e.stuck@),
        },
{
    let n = tools.len();
    let mut placed: Vec<bool> = Vec::new();
    while placed.len() < n
        invariant
            placed@.len() <= n,
            forall|i: int| 0 <= i < placed@.len() ==> !placed@[i],
        decreases n - placed.len(),
    {
        placed.push(false);
    }
    let mut order: Vec<usize> = Vec::new();
    loop
        invariant
            n == tools@.len(),
            placement_ok(tools@, placed@, order@),
        decreases count_false(placed@),
    {
        let ghost start = placed@;
        let mut progress = false;
        let mut i: usize = 0;
        while i < n
            invariant
                n == tools@.len(),
                start.len() == n,
                i <= n,
                placement_ok(tools@, placed@, order@),
                progress ==> count_false(placed@) < count_false(start),
                !progress ==> placed@ == start,
                !progress ==> forall|ii: int|
                    0 <= ii < i && !placed@[ii] ==> exists|j: int|
                        0 <= j < n && #[trigger] depends_on(tools@, ii, j) && !placed@[j],
            decreases n - i,
        {
            if !placed[i] {
                if deps_placed(tools, i, &placed) {
                    let ghost before = placed@;
                    let ghost order_before = order@;
                    proof {
                        lemma_count_false_update(before, i as int);
                    }
                    placed.set(i, true);
                    order.push(i);
                    proof {
                        lemma_place(tools@, before, order_before, placed@, order@, i as int);
                    }
                    progress = true;
                }
            }
            i = i + 1;
        }
        let all = all_true(&placed);
        if all {
            proof {
                assert forall|ii: int| 0 <= ii < n implies #[trigger] order@.contains(ii as usize) by {
                    assert(placed@[ii]);
                }
                // every placed index is listed once, and every index is placed
                assert(order@.len() == n) by {
                    lemma_distinct_bounded_len(order@, n as int);
                    lemma_cover_len(order@, n as int);
                }
            }
            assert(is_topo_order(tools@, order@));
            return Ok(order);
        }
        if !progress {
            let stuck = false_indices(&placed);
            proof {
                let i0 = choose|j: int| 0 <= j < n && !placed@[j];
                assert(stuck@.contains(i0 as usize));
                lemma_stuck_means_cycle(tools@, placed@, i0);
                assert forall|kk: int| 0 <= kk < stuck@.len() implies requires_one_of(tools@, #[trigger] stuck@[kk] as int, stuck@) by {
                    let ii = stuck@[kk] as int;
                    assert(0 <= ii < n && !placed@[ii]);
                    let j = choose|j: int| 0 <= j < n && #[trigger] depends_on(tools@, ii, j) && !placed@[j];
                    assert(stuck@.contains(j as usize));
                    assert(0 <= j < tools@.len() && depends_on(tools@, ii, j)
                        && stuck@.contains(j as usize));
                }
                lemma_stuck_exact(tools@, placed@, order@, stuck@);
            }
            return Err(CycleError { stuck });
        }
    }
}

/// A duplicate-free list of indices below `n` has at most `n` entries.
proof fn lemma_distinct_bounded_len(s: Seq<usize>, n: int)
    requires
        n <= usize::MAX + 1,
        s.no_duplicates(),
        forall|p: int| 0 <= p < s.len() ==> (#[trigger] s[p] as int) < n,
        n >= 0,
    ensures
        s.len() <= n,
{
    let set = s.to_set();
    s.unique_seq_to_set();
    let full = Set::new(|i: usize| (i as int) < n);
    assert(set.subset_of(full));
    lemma_index_set_len(n);
    vstd::set_lib::lemma_len_subset(set, full);
}

/// A list that contains every index below `n` has at least `n` entries.
proof fn lemma_cover_len(s: Seq<usize>, n: int)
    requires
        0 <= n <= usize::MAX + 1,
        forall|i: int| 0 <= i < n ==> #[trigger] s.contains(i as usize),
        forall|p: int| 0 <= p < s.len() ==> (#[trigger] s[p] as int) < n,
    ensures
        s.len() >= n,
{
    let full = Set::new(|i: usize| (i as int) < n);
    lemma_index_set_len(n);
    assert(full.subset_of(s.to_set())) by {
        assert forall|i: usize| full.contains(i) implies s.to_set().contains(i) by {
            assert(s.contains((i as int) as usize));
        }
    }
    s.lemma_cardinality_of_set();
    vstd::set_lib::lemma_len_subset(full, s.to_set());
}

proof fn lemma_index_set_len(n: int)
    requires
        0 <= n <= usize::MAX + 1,
    ensures
        Set::new(|i: usize| (i as int) < n).finite(),
        Set::new(|i: usize| (i as int) < n).len() == n,
    decreases n,
{
    let full = Set::new(|i: usize| (i as int) < n);
    if n == 0 {
        assert(full =~= Set::empty());
    } else {
        lemma_index_set_len(n - 1);
        let smaller = Set::new(|i: usize| (i as int) < n - 1);
        let top = (n - 1) as usize;
        assert(top as int == n - 1);
        assert(!smaller.contains(top));
        assert(full =~= smaller.insert(top));
    }
}

} // verus!
