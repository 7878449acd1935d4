//! Walking a process snapshot's parent links: every process descended
//! from a given one. Used to find, below a terminal's foreground process,
//! the shell process that actually owns the console.

use vstd::prelude::*;

verus! {

/// A snapshot entry: (process id, parent process id, executable name).
pub type ProcessEntry = (u32, u32, String);

/// The process id at position `k` along `c`: the root at 0, then the id
/// of each entry in turn.
pub open spec fn chain_pid(root: u32, procs: Seq<ProcessEntry>, c: Seq<int>, k: int) -> u32 {
    if k == 0 {
        root
    } else {
        procs[c[k - 1]].0
    }
}

/// `c` lists snapshot entries each of which is a child of the previous
/// one, the first a child of `root`.
pub open spec fn is_chain(root: u32, procs: Seq<ProcessEntry>, c: Seq<int>) -> bool {
    forall|k: int|
        0 <= k < c.len() ==> 0 <= #[trigger] c[k] < procs.len() && procs[c[k]].1 == chain_pid(
            root,
            procs,
            c,
            k,
        )
}

/// No chain below `root` is longer than the snapshot: the parent links
/// reachable from `root` hold no cycle (a process listed as its own
/// ancestor would make the walk go on forever).
pub open spec fn chains_bounded(root: u32, procs: Seq<ProcessEntry>) -> bool {
    forall|c: Seq<int>| is_chain(root, procs, c) ==> c.len() <= procs.len()
}

/// Entry `j` is a descendant of `root`: some chain from `root` ends at it.
pub open spec fn is_descendant(root: u32, procs: Seq<ProcessEntry>, j: int) -> bool {
    exists|c: Seq<int>| is_chain(root, procs, c) && c.len() > 0 && c.last() == j
}

/// The (process id, name) reported for entry `j`.
pub open spec fn reported(procs: Seq<ProcessEntry>, j: int) -> (u32, String) {
    (procs[j].0, procs[j].2)
}

/// Every pair in `r` is the one reported for some descendant of `root`.
pub open spec fn reports_descendants(root: u32, procs: Seq<ProcessEntry>, r: Seq<(u32, String)>) -> bool {
    forall|i: int|
        #![trigger r[i]]
        0 <= i < r.len() ==> exists|j: int|
            #![trigger reported(procs, j)]
            is_descendant(root, procs, j) && r[i] == reported(procs, j)
}

/// `b` raised to the `e`.
spec fn power(b: nat, e: nat) -> nat
    decreases e,
{
    if e == 0 {
        1
    } else {
        b * power(b, (e - 1) as nat)
    }
}

/// Weight of a pending chain: shorter chains weigh more, enough that a
/// chain outweighs all the one-longer chains it can lead to.
spec fn chain_weight(n: nat, c: Seq<int>) -> nat {
    power(n + 1, (n + 1 - c.len()) as nat)
}

/// Sum of the weights of the pending chains: it drops with every step of the walk.
spec fn total_weight(n: nat, cs: Seq<Seq<int>>) -> nat
    decreases cs.len(),
{
    if cs.len() == 0 {
        0
    } else {
        total_weight(n, cs.drop_last()) + chain_weight(n, cs.last())
    }
}

proof fn lemma_power_positive(b: nat, e: nat)
    requires
        b >= 1,
    ensures
        power(b, e) >= 1,
    decreases e,
{
    if e > 0 {
        lemma_power_positive(b, (e - 1) as nat);
        assert(b * power(b, (e - 1) as nat) >= 1) by (nonlinear_arith)
            requires
                b >= 1,
                power(b, (e - 1) as nat) >= 1,
        ;
    }
}

/// `n` chains one step longer weigh less than the chain they extend.
proof fn lemma_children_weigh_less(n: nat, d: nat)
    requires
        d + 1 <= n,
    ensures
        n * power(n + 1, (n - d) as nat) < power(n + 1, (n + 1 - d) as nat),
{
    let e = (n - d) as nat;
    lemma_power_positive(n + 1, e);
    assert(((n + 1 - d) as nat - 1) as nat == e);
    let p = power(n + 1, e);
    assert(power(n + 1, (n + 1 - d) as nat) == (n + 1) * p);
    assert(n * p < (n + 1) * p) by (nonlinear_arith)
        requires
            p >= 1,
    ;
}

proof fn lemma_weight_push(n: nat, cs: Seq<Seq<int>>, c: Seq<int>)
    ensures
        total_weight(n, cs.push(c)) == total_weight(n, cs) + chain_weight(n, c),
{
    assert(cs.push(c).drop_last() =~= cs);
}


/// The (id, name) pairs of the children of `pid` among the first `m`
/// entries, in snapshot order.
pub open spec fn child_reports(procs: Seq<ProcessEntry>, pid: u32, m: int) -> Seq<(u32, String)>
    decreases m,
{
    if m <= 0 {
        Seq::empty()
    } else {
        child_reports(procs, pid, m - 1) + if procs[m - 1].1 == pid {
            seq![reported(procs, m - 1)]
        } else {
            Seq::empty()
        }
    }
}

/// The ids of the children of `pid` among the first `m` entries, in
/// snapshot order.
pub open spec fn child_pids(procs: Seq<ProcessEntry>, pid: u32, m: int) -> Seq<u32>
    decreases m,
{
    if m <= 0 {
        Seq::empty()
    } else {
        child_pids(procs, pid, m - 1) + if procs[m - 1].1 == pid {
            seq![procs[m - 1].0]
        } else {
            Seq::empty()
        }
    }
}

/// One step of the walk on a stack of pending ids: the last pending id is
/// taken off and its children's ids go on top, in snapshot order.
pub open spec fn walk_step(procs: Seq<ProcessEntry>, pending: Seq<u32>) -> Seq<u32> {
    pending.drop_last() + child_pids(procs, pending.last(), procs.len() as int)
}

/// What the first `steps` steps of the walk report: at each step, the
/// children of the id taken off, in snapshot order.
pub open spec fn walk_out(procs: Seq<ProcessEntry>, pending: Seq<u32>, steps: nat) -> Seq<(u32, String)>
    decreases steps,
{
    if steps == 0 || pending.len() == 0 {
        Seq::empty()
    } else {
        child_reports(procs, pending.last(), procs.len() as int) + walk_out(
            procs,
            walk_step(procs, pending),
            (steps - 1) as nat,
        )
    }
}

/// The walk has nothing left pending after at most `steps` steps.
pub open spec fn walk_ends(procs: Seq<ProcessEntry>, pending: Seq<u32>, steps: nat) -> bool
    decreases steps,
{
    if pending.len() == 0 {
        true
    } else if steps == 0 {
        false
    } else {
        walk_ends(procs, walk_step(procs, pending), (steps - 1) as nat)
    }
}

/// Having reported `done` with `pending` still to walk after `steps` steps
/// from `start`: walking on from `pending` is walking on from `start`.
#[verifier::opaque]
spec fn walk_resumes(
    procs: Seq<ProcessEntry>,
    start: Seq<u32>,
    done: Seq<(u32, String)>,
    pending: Seq<u32>,
    steps: nat,
) -> bool {
    &&& forall|fuel: nat|
        done + #[trigger] walk_out(procs, pending, fuel) == walk_out(procs, start, steps + fuel)
    &&& forall|fuel: nat|
        #[trigger] walk_ends(procs, pending, fuel) == walk_ends(procs, start, steps + fuel)
}

/// Once the walk has ended, further steps report nothing more: every step
/// count at which it has ended gives the same report.
pub proof fn lemma_walk_out_settles(procs: Seq<ProcessEntry>, pending: Seq<u32>, k1: nat, k2: nat)
    requires
        walk_ends(procs, pending, k1),
        k1 <= k2,
    ensures
        walk_ends(procs, pending, k2),
        walk_out(procs, pending, k2) == walk_out(procs, pending, k1),
    decreases k1,
{
    if pending.len() > 0 {
        lemma_walk_out_settles(procs, walk_step(procs, pending), (k1 - 1) as nat, (k2 - 1) as nat);
    }
}

/// No two snapshot entries share a process id.
pub open spec fn pids_unique(procs: Seq<ProcessEntry>) -> bool {
    forall|a: int, b: int|
        #![trigger procs[a], procs[b]]
        0 <= a < b < procs.len() ==> procs[a].0 != procs[b].0
}

/// `c` repeated `m` times, one copy after another.
spec fn repeat_chain(c: Seq<int>, m: nat) -> Seq<int>
    decreases m,
{
    if m == 0 {
        Seq::empty()
    } else {
        repeat_chain(c, (m - 1) as nat) + c
    }
}

/// A chain that ends at an entry whose id is the root's can be followed by
/// another chain.
proof fn lemma_chain_concat(root: u32, procs: Seq<ProcessEntry>, a: Seq<int>, c: Seq<int>)
    requires
        is_chain(root, procs, a),
        is_chain(root, procs, c),
        a.len() > 0,
        procs[a.last()].0 == root,
    ensures
        is_chain(root, procs, a + c),
{
    let d = a + c;
    assert forall|k: int| 0 <= k < d.len() implies 0 <= #[trigger] d[k] < procs.len() && procs[d[k]].1
        == chain_pid(root, procs, d, k) by {
        if k < a.len() {
            assert(d[k] == a[k]);
            assert(procs[a[k]].1 == chain_pid(root, procs, a, k));
            if k > 0 {
                assert(d[k - 1] == a[k - 1]);
            }
        } else {
            let q = k - a.len();
            assert(d[k] == c[q]);
            assert(procs[c[q]].1 == chain_pid(root, procs, c, q));
            if q > 0 {
                assert(d[k - 1] == c[q - 1]);
            } else {
                assert(d[k - 1] == a.last());
            }
        }
    }
}

proof fn lemma_repeat_chain(root: u32, procs: Seq<ProcessEntry>, c: Seq<int>, m: nat)
    requires
        is_chain(root, procs, c),
        c.len() > 0,
        procs[c.last()].0 == root,
        m >= 1,
    ensures
        is_chain(root, procs, repeat_chain(c, m)),
        repeat_chain(c, m).len() >= m,
        repeat_chain(c, m).last() == c.last(),
    decreases m,
{
    if m == 1 {
        assert(repeat_chain(c, 0) + c =~= c);
    } else {
        lemma_repeat_chain(root, procs, c, (m - 1) as nat);
        lemma_chain_concat(root, procs, repeat_chain(c, (m - 1) as nat), c);
    }
}

/// Within bounded chains no descendant carries the root's own id: the walk
/// would otherwise find the root's children below it again and again.
proof fn lemma_descendant_is_not_root(root: u32, procs: Seq<ProcessEntry>, c: Seq<int>)
    requires
        chains_bounded(root, procs),
        is_chain(root, procs, c),
        c.len() > 0,
    ensures
        procs[c.last()].0 != root,
{
    if procs[c.last()].0 == root {
        lemma_repeat_chain(root, procs, c, procs.len() + 1);
        assert(repeat_chain(c, procs.len() + 1).len() <= procs.len());
    }
}

/// Bookkeeping of the walk that rules out repeats: `which` lists the
/// entries reported so far; every reported entry's parent has been
/// expanded; every pending chain ends at a reported entry (or is the
/// root's); every expanded id is the root's or a reported entry's; and,
/// with unique ids, no entry is reported twice, no id is pending twice, and
/// no pending id has been expanded.
#[verifier::opaque]
spec fn walk_ok(
    root: u32,
    procs: Seq<ProcessEntry>,
    which: Seq<int>,
    chains: Seq<Seq<int>>,
    frontier: Seq<u32>,
    expanded: Set<u32>,
    result: Seq<(u32, String)>,
) -> bool {
    &&& which.len() == result.len()
    &&& forall|i: int|
        0 <= i < which.len() ==> 0 <= #[trigger] which[i] < procs.len() && result[i] == reported(
            procs,
            which[i],
        ) && expanded.contains(procs[which[i]].1)
    &&& forall|k: int|
        0 <= k < chains.len() && chains[k].len() > 0 ==> which.contains(#[trigger] chains[k].last())
    &&& forall|p: u32|
        #[trigger] expanded.contains(p) ==> p == root || exists|i: int|
            0 <= i < which.len() && procs[which[i]].0 == p
    &&& pids_unique(procs) ==> {
        &&& which.no_duplicates()
        &&& frontier.no_duplicates()
        &&& forall|k: int| 0 <= k < frontier.len() ==> !expanded.contains(#[trigger] frontier[k])
    }
}

/// The reports of the current pop: entries reported before it have an
/// earlier-expanded parent; those reported during it are children of
/// `pid` listed before position `j`.
spec fn pop_reports(
    procs: Seq<ProcessEntry>,
    which: Seq<int>,
    base_len: int,
    old_expanded: Set<u32>,
    pid: u32,
    j: int,
) -> bool {
    &&& 0 <= base_len <= which.len()
    &&& forall|i: int|
        0 <= i < base_len ==> old_expanded.contains(#[trigger] procs[which[i]].1)
    &&& forall|i: int|
        base_len <= i < which.len() ==> #[trigger] which[i] < j && procs[which[i]].1 == pid
}

proof fn lemma_walk_start(root: u32, procs: Seq<ProcessEntry>)
    ensures
        walk_ok(
            root,
            procs,
            Seq::empty(),
            seq![Seq::<int>::empty()],
            seq![root],
            Set::empty(),
            Seq::empty(),
        ),
{
    reveal(walk_ok);
    let frontier = seq![root];
    assert(frontier.no_duplicates());
}

proof fn lemma_walk_pop(
    root: u32,
    procs: Seq<ProcessEntry>,
    which: Seq<int>,
    chains: Seq<Seq<int>>,
    frontier: Seq<u32>,
    expanded: Set<u32>,
    result: Seq<(u32, String)>,
)
    requires
        walk_ok(root, procs, which, chains, frontier, expanded, result),
        chains.len() == frontier.len(),
        frontier.len() > 0,
        chain_pid(root, procs, chains.last(), chains.last().len() as int) == frontier.last(),
    ensures
        walk_ok(
            root,
            procs,
            which,
            chains.drop_last(),
            frontier.drop_last(),
            expanded.insert(frontier.last()),
            result,
        ),
        pop_reports(procs, which, which.len() as int, expanded, frontier.last(), 0),
        pids_unique(procs) ==> !expanded.contains(frontier.last()),
{
    reveal(walk_ok);
    let pid = frontier.last();
    let c = chains.last();
    let e2 = expanded.insert(pid);
    let last = chains.len() - 1;
    assert(chains[last] == c);
    assert forall|p: u32| #[trigger] e2.contains(p) implies p == root || exists|i: int|
        0 <= i < which.len() && procs[which[i]].0 == p by {
        if p == pid && p != root {
            assert(c.len() > 0);
            assert(which.contains(c.last()));
            let i = choose|i: int| 0 <= i < which.len() && which[i] == c.last();
            assert(procs[which[i]].0 == p);
        }
    }
    assert forall|k: int| 0 <= k < chains.drop_last().len() && chains.drop_last()[k].len() > 0 implies which.contains(
        #[trigger] chains.drop_last()[k].last(),
    ) by {
        assert(chains.drop_last()[k] == chains[k]);
    }
    if pids_unique(procs) {
        let f2 = frontier.drop_last();
        assert forall|k: int| 0 <= k < f2.len() implies !e2.contains(#[trigger] f2[k]) by {
            assert(f2[k] == frontier[k]);
            assert(frontier[k] != frontier[frontier.len() - 1]);
        }
        assert(!expanded.contains(frontier[frontier.len() - 1]));
    }
}

proof fn lemma_walk_push(
    root: u32,
    procs: Seq<ProcessEntry>,
    which: Seq<int>,
    chains: Seq<Seq<int>>,
    frontier: Seq<u32>,
    expanded: Set<u32>,
    result: Seq<(u32, String)>,
    old_expanded: Set<u32>,
    pid: u32,
    base_len: int,
    j: int,
    child: Seq<int>,
)
    requires
        walk_ok(root, procs, which, chains, frontier, expanded, result),
        pop_reports(procs, which, base_len, old_expanded, pid, j),
        expanded == old_expanded.insert(pid),
        pids_unique(procs) ==> !old_expanded.contains(pid),
        chains_bounded(root, procs),
        chains.len() == frontier.len(),
        forall|k: int|
            0 <= k < chains.len() ==> is_chain(root, procs, #[trigger] chains[k]) && chain_pid(
                root,
                procs,
                chains[k],
                chains[k].len() as int,
            ) == frontier[k],
        0 <= j < procs.len(),
        procs[j].1 == pid,
        is_chain(root, procs, child),
        child.len() > 0,
        child.last() == j,
    ensures
        walk_ok(
            root,
            procs,
            which.push(j),
            chains.push(child),
            frontier.push(procs[j].0),
            expanded,
            result.push(reported(procs, j)),
        ),
        pop_reports(procs, which.push(j), base_len, old_expanded, pid, j + 1),
{
    reveal(walk_ok);
    let w2 = which.push(j);
    let c2 = chains.push(child);
    let f2 = frontier.push(procs[j].0);
    let r2 = result.push(reported(procs, j));
    assert forall|i: int| 0 <= i < w2.len() implies 0 <= #[trigger] w2[i] < procs.len() && r2[i] == reported(
        procs,
        w2[i],
    ) && expanded.contains(procs[w2[i]].1) by {
        if i < which.len() {
            assert(w2[i] == which[i]);
            assert(r2[i] == result[i]);
        }
    }
    assert forall|k: int| 0 <= k < c2.len() && c2[k].len() > 0 implies w2.contains(#[trigger] c2[k].last()) by {
        if k < chains.len() {
            assert(c2[k] == chains[k]);
            let i = choose|i: int| 0 <= i < which.len() && which[i] == chains[k].last();
            assert(w2[i] == which[i]);
        } else {
            assert(w2[which.len() as int] == j);
        }
    }
    assert forall|p: u32| #[trigger] expanded.contains(p) implies p == root || exists|i: int|
        0 <= i < w2.len() && procs[w2[i]].0 == p by {
        if p != root {
            let i = choose|i: int| 0 <= i < which.len() && procs[which[i]].0 == p;
            assert(w2[i] == which[i]);
        }
    }
    assert forall|i: int| base_len <= i < w2.len() implies #[trigger] w2[i] < j + 1 && procs[w2[i]].1 == pid by {
        if i < which.len() {
            assert(w2[i] == which[i]);
        }
    }
    assert forall|i: int| 0 <= i < base_len implies old_expanded.contains(#[trigger] procs[w2[i]].1) by {
        assert(w2[i] == which[i]);
    }
    if pids_unique(procs) {
        lemma_descendant_is_not_root(root, procs, child);
        let c = procs[j].0;
        // `j` is not reported yet: an earlier report has an earlier-expanded
        // parent, a report of this pop comes before `j`.
        assert forall|i: int| 0 <= i < which.len() implies #[trigger] which[i] != j by {
            if i < base_len {
                assert(old_expanded.contains(procs[which[i]].1));
            }
        }
        assert(w2.no_duplicates()) by {
            assert forall|a: int, b: int| 0 <= a < w2.len() && 0 <= b < w2.len() && a != b implies w2[a]
                != w2[b] by {
                if a < which.len() && b < which.len() {
                    assert(w2[a] == which[a] && w2[b] == which[b]);
                } else if a < which.len() {
                    assert(w2[a] == which[a]);
                } else if b < which.len() {
                    assert(w2[b] == which[b]);
                }
            }
        }
        // The child's id is neither pending nor expanded: it would belong to
        // the root or to another reported entry.
        assert forall|k: int| 0 <= k < frontier.len() implies #[trigger] frontier[k] != c by {
            if chains[k].len() > 0 {
                let e = chains[k].last();
                assert(which.contains(e));
                let i = choose|i: int| 0 <= i < which.len() && which[i] == e;
                assert(procs[e].0 == frontier[k]);
                if e < j {
                    assert(procs[e] == procs[e]);
                } else if e > j {
                    assert(procs[j] == procs[j]);
                }
            }
        }
        assert(!expanded.contains(c)) by {
            if expanded.contains(c) {
                let i = choose|i: int| 0 <= i < which.len() && procs[which[i]].0 == c;
                let e = which[i];
                if e < j {
                    assert(procs[e] == procs[e]);
                } else if e > j {
                    assert(procs[j] == procs[j]);
                }
            }
        }
        assert(f2.no_duplicates()) by {
            assert forall|a: int, b: int| 0 <= a < f2.len() && 0 <= b < f2.len() && a != b implies f2[a]
                != f2[b] by {
                if a < frontier.len() && b < frontier.len() {
                    assert(f2[a] == frontier[a] && f2[b] == frontier[b]);
                } else if a < frontier.len() {
                    assert(f2[a] == frontier[a]);
                } else if b < frontier.len() {
                    assert(f2[b] == frontier[b]);
                }
            }
        }
        assert forall|k: int| 0 <= k < f2.len() implies !expanded.contains(#[trigger] f2[k]) by {
            if k < frontier.len() {
                assert(f2[k] == frontier[k]);
            }
        }
    }
}

/// With unique ids, the walk's reports carry distinct ids.
proof fn lemma_walk_reports_once(
    root: u32,
    procs: Seq<ProcessEntry>,
    which: Seq<int>,
    chains: Seq<Seq<int>>,
    frontier: Seq<u32>,
    expanded: Set<u32>,
    result: Seq<(u32, String)>,
)
    requires
        walk_ok(root, procs, which, chains, frontier, expanded, result),
        pids_unique(procs),
    ensures
        forall|a: int, b: int|
            #![trigger result[a], result[b]]
            0 <= a < b < result.len() ==> result[a].0 != result[b].0,
{
    reveal(walk_ok);
    assert forall|a: int, b: int| 0 <= a < b < result.len() implies #[trigger] result[a].0 != #[trigger] result[b].0 by {
        assert(which[a] != which[b]);
        let (x, y) = (which[a], which[b]);
        if x < y {
            assert(procs[x] == procs[x] && procs[y] == procs[y]);
        } else {
            assert(procs[y] == procs[y] && procs[x] == procs[x]);
        }
    }
}

/// Every process descended from `root_pid` in the snapshot, with its name:
/// the children of each process found are looked up in turn. The list is
/// exactly what the depth-first walk of `walk_out` reports: the last
/// pending id is taken off a stack, its children are listed in snapshot
/// order and their ids pushed. Each descendant is listed, nothing else is,
/// and where the snapshot's process ids are unique no id is listed twice.
pub fn descendants(root_pid: u32, procs: &[ProcessEntry]) -> (r: Vec<(u32, String)>)
    requires
        chains_bounded(root_pid, procs@),
    ensures
        reports_descendants(root_pid, procs@, r@),
        forall|j: int| is_descendant(root_pid, procs@, j) ==> r@.contains(#[trigger] reported(procs@, j)),
        pids_unique(procs@) ==> forall|a: int, b: int|
            #![trigger r@[a], r@[b]]
            0 <= a < b < r@.len() ==> r@[a].0 != r@[b].0,
        exists|k: nat| walk_ends(procs@, seq![root_pid], k),
        forall|k: nat|
            walk_ends(procs@, seq![root_pid], k) ==> r@ == #[trigger] walk_out(procs@, seq![root_pid], k),
{
    let ghost root = root_pid;
    let ghost ps = procs@;
    let ghost n = procs@.len();
    let mut result: Vec<(u32, String)> = Vec::new();
    let mut frontier: Vec<u32> = Vec::new();
    frontier.push(root_pid);
    let ghost mut chains: Seq<Seq<int>> = seq![Seq::<int>::empty()];
    let ghost mut which: Seq<int> = Seq::empty();
    let ghost mut steps: nat = 0;
    let ghost start: Seq<u32> = seq![root_pid];
    let ghost mut expanded: Set<u32> = Set::empty();
    proof {
        lemma_walk_start(root, ps);
        assert(frontier@ =~= seq![root]);
        assert(result@ =~= Seq::<(u32, String)>::empty());
        assert(walk_resumes(ps, start, result@, frontier@, steps)) by {
            reveal(walk_resumes);
            assert forall|fuel: nat|
                result@ + #[trigger] walk_out(ps, frontier@, fuel) == walk_out(ps, start, steps + fuel) by {
                assert(result@ + walk_out(ps, frontier@, fuel) =~= walk_out(ps, frontier@, fuel));
            }
        }
        assert(total_weight(n, chains) == total_weight(n, Seq::<Seq<int>>::empty()) + chain_weight(n, Seq::<int>::empty())) by {
            lemma_weight_push(n, Seq::<Seq<int>>::empty(), Seq::<int>::empty());
            assert(Seq::<Seq<int>>::empty().push(Seq::<int>::empty()) =~= chains);
        }
        assert forall|c: Seq<int>| #[trigger] is_chain(root, ps, c) && c.len() > 0 implies result@.contains(
            reported(ps, c.last()),
        ) || exists|k: int| 0 <= k < c.len() && frontier@.contains(#[trigger] chain_pid(root, ps, c, k)) by {
            assert(chain_pid(root, ps, c, 0) == frontier@[0]);
        }
    }
    while frontier.len() > 0
        invariant
            ps == procs@,
            n == procs@.len(),
            chains_bounded(root, ps),
            root == root_pid,
            frontier@.len() == chains.len(),
            forall|k: int|
                0 <= k < chains.len() ==> is_chain(root, ps, #[trigger] chains[k])
                    && chain_pid(root, ps, chains[k], chains[k].len() as int) == frontier@[k]
                    && chains[k].len() <= n,
            reports_descendants(root, ps, result@),
            walk_ok(root, ps, which, chains, frontier@, expanded, result@),
            start == seq![root],
            walk_resumes(ps, start, result@, frontier@, steps),
            forall|c: Seq<int>|
                #[trigger] is_chain(root, ps, c) && c.len() > 0 ==> result@.contains(
                    reported(ps, c.last()),
                ) || exists|k: int| 0 <= k < c.len() && frontier@.contains(#[trigger] chain_pid(root, ps, c, k)),
        decreases total_weight(n, chains),
    {
        let ghost old_frontier = frontier@;
        let ghost old_weight = total_weight(n, chains);
        let ghost pc = chains.last();
        let ghost old_expanded = expanded;
        let ghost base_len = which.len() as int;
        let ghost result_at_pop = result@;
        let ghost old_steps = steps;
        proof {
            assert(walk_resumes(
                ps,
                start,
                result_at_pop + child_reports(ps, old_frontier.last(), n as int),
                walk_step(ps, old_frontier),
                (old_steps + 1) as nat,
            )) by {
                reveal(walk_resumes);
                let done2 = result_at_pop + child_reports(ps, old_frontier.last(), n as int);
                let pend2 = walk_step(ps, old_frontier);
                assert forall|fuel: nat|
                    done2 + #[trigger] walk_out(ps, pend2, fuel) == walk_out(ps, start, (old_steps + 1) as nat + fuel) by {
                    assert(result@ + walk_out(ps, frontier@, (fuel + 1) as nat) == walk_out(ps, start, old_steps + (fuel + 1) as nat));
                    assert(done2 + walk_out(ps, pend2, fuel) =~= result_at_pop + (child_reports(ps, old_frontier.last(), n as int) + walk_out(
                        ps,
                        pend2,
                        fuel,
                    )));
                }
                assert forall|fuel: nat|
                    #[trigger] walk_ends(ps, pend2, fuel) == walk_ends(ps, start, (old_steps + 1) as nat + fuel) by {
                    assert(walk_ends(ps, frontier@, (fuel + 1) as nat) == walk_ends(ps, start, old_steps + (fuel + 1) as nat));
                }
            }
            lemma_walk_pop(root, ps, which, chains, frontier@, expanded, result@);
        }
        let pid = frontier.pop().unwrap();
        proof {
            assert(frontier@ =~= old_frontier.drop_last());
            chains = chains.drop_last();
            expanded = expanded.insert(pid);
        }
        let ghost base_weight = total_weight(n, chains);
        let ghost base_frontier = frontier@;
        let ghost cnt: nat = 0;
        proof {
            assert(old_frontier =~= base_frontier.push(pid));
            assert(frontier@.subrange(0, base_frontier.len() as int) =~= base_frontier);
            assert forall|c: Seq<int>|
                #[trigger] is_chain(root, ps, c) && c.len() > 0 implies result@.contains(
                    reported(ps, c.last()),
                ) || (exists|k: int| 0 <= k < c.len() && frontier@.contains(#[trigger] chain_pid(root, ps, c, k)))
                    || (exists|k: int| 0 <= k < c.len() && chain_pid(root, ps, c, k) == pid && c[k] >= 0) by {
                if !result@.contains(reported(ps, c.last())) {
                    let k = choose|k: int| 0 <= k < c.len() && old_frontier.contains(#[trigger] chain_pid(root, ps, c, k));
                    if chain_pid(root, ps, c, k) != pid {
                        let i = choose|i: int| 0 <= i < old_frontier.len() && old_frontier[i] == chain_pid(root, ps, c, k);
                        assert(i < base_frontier.len());
                        assert(frontier@[i] == old_frontier[i]);
                        assert(frontier@.contains(chain_pid(root, ps, c, k)));
                    } else {
                        assert(c[k] >= 0);
                    }
                }
            }
        }
        proof {
            assert(result@ =~= result_at_pop + child_reports(ps, pid, 0));
            assert(frontier@ =~= base_frontier + child_pids(ps, pid, 0));
        }
        let mut j: usize = 0;
        while j < procs.len()
            invariant
                ps == procs@,
                n == procs@.len(),
                chains_bounded(root, ps),
                root == root_pid,
                j <= procs.len(),
                is_chain(root, ps, pc),
                chain_pid(root, ps, pc, pc.len() as int) == pid,
                pc.len() <= n,
                old_frontier == base_frontier.push(pid),
                frontier@.len() >= base_frontier.len(),
                frontier@.subrange(0, base_frontier.len() as int) == base_frontier,
                frontier@.len() == chains.len(),
                forall|k: int|
                    0 <= k < chains.len() ==> is_chain(root, ps, #[trigger] chains[k])
                        && chain_pid(root, ps, chains[k], chains[k].len() as int) == frontier@[k]
                        && chains[k].len() <= n,
                cnt <= j,
                (cnt > 0 ==> pc.len() + 1 <= n),
                total_weight(n, chains) == base_weight + cnt * power(n + 1, (n - pc.len()) as nat),
                reports_descendants(root, ps, result@),
                walk_ok(root, ps, which, chains, frontier@, expanded, result@),
                pop_reports(ps, which, base_len, old_expanded, pid, j as int),
                expanded == old_expanded.insert(pid),
                pids_unique(ps) ==> !old_expanded.contains(pid),
                result@ == result_at_pop + child_reports(ps, pid, j as int),
                old_frontier.len() > 0 && old_frontier.last() == pid,
                walk_resumes(
                    ps,
                    start,
                    result_at_pop + child_reports(ps, pid, n as int),
                    walk_step(ps, old_frontier),
                    (old_steps + 1) as nat,
                ),
                frontier@ == base_frontier + child_pids(ps, pid, j as int),
                forall|c: Seq<int>|
                    #[trigger] is_chain(root, ps, c) && c.len() > 0 ==> result@.contains(
                        reported(ps, c.last()),
                    ) || (exists|k: int| 0 <= k < c.len() && frontier@.contains(#[trigger] chain_pid(root, ps, c, k)))
                        || (exists|k: int| 0 <= k < c.len() && chain_pid(root, ps, c, k) == pid && c[k] >= j),
            decreases procs.len() - j,
        {
            let (cpid, ppid, name) = &procs[j];
            if *ppid == pid {
                let ghost child = pc.push(j as int);
                proof {
                    assert forall|k: int| 0 <= k < child.len() implies 0 <= #[trigger] child[k] < ps.len()
                        && ps[child[k]].1 == chain_pid(root, ps, child, k) by {
                        if k < pc.len() {
                            assert(child[k] == pc[k]);
                            if k > 0 {
                                assert(child[k - 1] == pc[k - 1]);
                            }
                        } else {
                            if k > 0 {
                                assert(child[k - 1] == pc[k - 1]);
                            }
                        }
                    }
                    assert(is_chain(root, ps, child));
                    assert(child.len() <= n);
                    assert(is_descendant(root, ps, j as int)) by {
                        assert(child.last() == j as int);
                    }
                    lemma_weight_push(n, chains, child);
                    assert(chain_weight(n, child) == power(n + 1, (n - pc.len()) as nat));
                }
                let ghost old_result = result@;
                let ghost mid_frontier = frontier@;
                result.push((*cpid, name.clone()));
                frontier.push(*cpid);
                proof {
                    lemma_walk_push(
                        root,
                        ps,
                        which,
                        chains,
                        mid_frontier,
                        expanded,
                        old_result,
                        old_expanded,
                        pid,
                        base_len,
                        j as int,
                        child,
                    );
                    assert(result@ =~= old_result.push(reported(ps, j as int)));
                    assert(frontier@ =~= mid_frontier.push(ps[j as int].0));
                    which = which.push(j as int);
                    chains = chains.push(child);
                    assert(result@ =~= result_at_pop + child_reports(ps, pid, j + 1));
                    assert(frontier@ =~= base_frontier + child_pids(ps, pid, j + 1));
                    let p = power(n + 1, (n - pc.len()) as nat);
                    assert((cnt + 1) * p == cnt * p + p) by (nonlinear_arith);
                    cnt = cnt + 1;
                    assert forall|i: int| #![trigger result@[i]] 0 <= i < result@.len() implies exists|jj: int|
                        #![trigger reported(ps, jj)]
                        is_descendant(root, ps, jj) && result@[i] == reported(ps, jj) by {
                        if i < old_result.len() {
                            assert(result@[i] == old_result[i]);
                        } else {
                            assert(result@[i] == reported(ps, j as int));
                        }
                    }
                    assert(chain_pid(root, ps, child, child.len() as int) == *cpid);
                    assert(result@.last() == reported(ps, j as int));
                    assert forall|c: Seq<int>|
                        #[trigger] is_chain(root, ps, c) && c.len() > 0 implies result@.contains(
                            reported(ps, c.last()),
                        ) || (exists|k: int| 0 <= k < c.len() && frontier@.contains(#[trigger] chain_pid(root, ps, c, k)))
                            || (exists|k: int| 0 <= k < c.len() && chain_pid(root, ps, c, k) == pid && c[k] >= j + 1) by {
                        if old_result.contains(reported(ps, c.last())) {
                            let i = choose|i: int| 0 <= i < old_result.len() && old_result[i] == reported(ps, c.last());
                            assert(result@[i] == old_result[i]);
                        } else if exists|k: int| 0 <= k < c.len() && mid_frontier.contains(#[trigger] chain_pid(root, ps, c, k)) {
                            let k = choose|k: int| 0 <= k < c.len() && mid_frontier.contains(#[trigger] chain_pid(root, ps, c, k));
                            let i = choose|i: int| 0 <= i < mid_frontier.len() && mid_frontier[i] == chain_pid(root, ps, c, k);
                            assert(frontier@[i] == mid_frontier[i]);
                            assert(frontier@.contains(chain_pid(root, ps, c, k)));
                        } else {
                            let k = choose|k: int| 0 <= k < c.len() && chain_pid(root, ps, c, k) == pid && c[k] >= j;
                            if c[k] == j as int {
                                if k == c.len() - 1 {
                                    assert(result@[result@.len() - 1] == reported(ps, c.last()));
                                } else {
                                    assert(chain_pid(root, ps, c, k + 1) == *cpid);
                                    assert(frontier@[frontier@.len() - 1] == *cpid);
                                    assert(frontier@.contains(chain_pid(root, ps, c, k + 1)));
                                }
                            }
                        }
                    }
                }
            } else {
                proof {
                    assert(result@ =~= result_at_pop + child_reports(ps, pid, j + 1));
                    assert(frontier@ =~= base_frontier + child_pids(ps, pid, j + 1));
                    assert forall|c: Seq<int>|
                        #[trigger] is_chain(root, ps, c) && c.len() > 0 implies result@.contains(
                            reported(ps, c.last()),
                        ) || (exists|k: int| 0 <= k < c.len() && frontier@.contains(#[trigger] chain_pid(root, ps, c, k)))
                            || (exists|k: int| 0 <= k < c.len() && chain_pid(root, ps, c, k) == pid && c[k] >= j + 1) by {
                        if !result@.contains(reported(ps, c.last())) && !(exists|k: int| 0 <= k < c.len() && frontier@.contains(#[trigger] chain_pid(root, ps, c, k))) {
                            let k = choose|k: int| 0 <= k < c.len() && chain_pid(root, ps, c, k) == pid && c[k] >= j;
                            assert(ps[c[k]].1 == chain_pid(root, ps, c, k));
                            assert(c[k] != j as int);
                        }
                    }
                }
            }
            j = j + 1;
        }
        proof {
            if cnt > 0 {
                lemma_children_weigh_less(n, pc.len());
                assert(cnt * power(n + 1, (n - pc.len()) as nat) <= n * power(n + 1, (n - pc.len()) as nat)) by (nonlinear_arith)
                    requires
                        cnt <= n,
                ;
            }
            lemma_power_positive(n + 1, (n + 1 - pc.len()) as nat);
            assert(old_frontier.drop_last() =~= base_frontier);
            assert(frontier@ =~= walk_step(ps, old_frontier));
            steps = old_steps + 1;
            assert(old_weight == base_weight + chain_weight(n, pc));
            assert forall|c: Seq<int>|
                #[trigger] is_chain(root, ps, c) && c.len() > 0 implies result@.contains(
                    reported(ps, c.last()),
                ) || exists|k: int| 0 <= k < c.len() && frontier@.contains(#[trigger] chain_pid(root, ps, c, k)) by {
                if exists|k: int| 0 <= k < c.len() && chain_pid(root, ps, c, k) == pid && c[k] >= j {
                    let k = choose|k: int| 0 <= k < c.len() && chain_pid(root, ps, c, k) == pid && c[k] >= j;
                    assert(c[k] < ps.len());
                }
            }
        }
    }
    proof {
        if pids_unique(ps) {
            lemma_walk_reports_once(root, ps, which, chains, frontier@, expanded, result@);
        }
        assert(result@ == walk_out(ps, start, steps) && walk_ends(ps, start, steps)) by {
            reveal(walk_resumes);
            assert(result@ + walk_out(ps, frontier@, 0) == walk_out(ps, start, steps + 0));
            assert(walk_ends(ps, frontier@, 0) == walk_ends(ps, start, steps + 0));
            assert(result@ + walk_out(ps, frontier@, 0) =~= result@);
        }
        assert forall|k: nat| walk_ends(ps, start, k) implies result@ == #[trigger] walk_out(ps, start, k) by {
            if k <= steps {
                lemma_walk_out_settles(ps, start, k, steps);
            } else {
                lemma_walk_out_settles(ps, start, steps, k);
            }
        }
    }
    result
}

} // verus!
