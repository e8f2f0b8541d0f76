//! The tree builder.
//!
//! Given the flat snapshot of raw per-process material and a root pid,
//! this builds the tree of that process and its live descendants: one
//! node per snapshot entry whose parent chain reaches the root, each
//! enriched from its own raw material.
//!
//! The walk is driven by an availability mask over the snapshot.  Each
//! node first claims every available entry whose `ppid` equals its own
//! pid — clearing them from the mask — and only then builds their
//! subtrees, so no entry can become a node twice and the recursion is
//! bounded by the number of entries still available.  That bound holds
//! even on degenerate inputs whose parent links form a cycle, which a
//! live snapshot cannot produce but a synthetic list can.

use crate::node::{fields_match, node_from_raw, LocalProcessInfo, RawProcess};
use crate::timing::Timestamp;
use vstd::prelude::*;

verus! {

/// Snapshot validity: process identifiers are unique at snapshot time.
pub open spec fn unique_pids(entries: Seq<RawProcess>) -> bool {
    forall|i: int, j: int| 0 <= i < j < entries.len() ==> entries[i].pid != entries[j].pid
}

/// How many entries are still available.
pub open spec fn count_avail(m: Seq<bool>) -> nat
    decreases m.len(),
{
    if m.len() == 0 {
        0
    } else {
        count_avail(m.drop_last()) + if m.last() {
            1nat
        } else {
            0nat
        }
    }
}

/// A mask nowhere wider than another has no larger count.
proof fn lemma_count_le(a: Seq<bool>, b: Seq<bool>)
    requires
        a.len() == b.len(),
        forall|j: int| 0 <= j < a.len() && a[j] ==> b[j],
    ensures
        count_avail(a) <= count_avail(b),
    decreases a.len(),
{
    if a.len() > 0 {
        lemma_count_le(a.drop_last(), b.drop_last());
    }
}

/// Clearing one set position lowers the count by exactly one.
proof fn lemma_count_clear(m: Seq<bool>, i: int)
    requires
        0 <= i < m.len(),
        m[i],
    ensures
        count_avail(m.update(i, false)) == count_avail(m) - 1,
    decreases m.len(),
{
    if i == m.len() - 1 {
        assert(m.update(i, false).drop_last() =~= m.drop_last());
    } else {
        assert(m.update(i, false).drop_last() =~= m.drop_last().update(i, false));
        lemma_count_clear(m.drop_last(), i);
    }
}

/// How often pid `p` occurs in the tree rooted at `n`.
pub open spec fn tree_pid_count(n: LocalProcessInfo, p: u32) -> nat
    decreases n,
{
    (if n.pid == p {
        1nat
    } else {
        0nat
    }) + forest_pid_count(n.children@, p)
}

/// How often pid `p` occurs across a sequence of trees.
pub open spec fn forest_pid_count(s: Seq<LocalProcessInfo>, p: u32) -> nat
    decreases s,
{
    if s.len() == 0 {
        0
    } else {
        tree_pid_count(s.first(), p) + forest_pid_count(s.drop_first(), p)
    }
}

proof fn lemma_forest_push(s: Seq<LocalProcessInfo>, n: LocalProcessInfo, p: u32)
    ensures
        forest_pid_count(s.push(n), p) == forest_pid_count(s, p) + tree_pid_count(n, p),
    decreases s.len(),
{
    let t = s.push(n);
    if s.len() == 0 {
        assert(t.first() == n);
        assert(t.drop_first() =~= Seq::<LocalProcessInfo>::empty());
        assert(forest_pid_count(t.drop_first(), p) == 0);
        assert(forest_pid_count(t, p) == tree_pid_count(n, p) + 0);
        assert(forest_pid_count(s, p) == 0);
    } else {
        assert(t.first() == s.first());
        assert(t.drop_first() =~= s.drop_first().push(n));
        lemma_forest_push(s.drop_first(), n, p);
        assert(forest_pid_count(t, p) == tree_pid_count(s.first(), p) + forest_pid_count(
            t.drop_first(),
            p,
        ));
        assert(forest_pid_count(t.drop_first(), p) == forest_pid_count(s.drop_first(), p)
            + tree_pid_count(n, p));
        assert(forest_pid_count(s, p) == tree_pid_count(s.first(), p) + forest_pid_count(
            s.drop_first(),
            p,
        ));
    }
}

proof fn lemma_forest_count_member(s: Seq<LocalProcessInfo>, p: u32)
    requires
        forest_pid_count(s, p) >= 1,
    ensures
        exists|k: int| 0 <= k < s.len() && tree_pid_count(#[trigger] s[k], p) >= 1,
    decreases s.len(),
{
    if tree_pid_count(s.first(), p) >= 1 {
        assert(tree_pid_count(s[0], p) >= 1);
    } else {
        lemma_forest_count_member(s.drop_first(), p);
        let k = choose|k: int|
            0 <= k < s.drop_first().len() && tree_pid_count(#[trigger] s.drop_first()[k], p) >= 1;
        assert(s.drop_first()[k] == s[k + 1]);
        assert(tree_pid_count(s[k + 1], p) >= 1);
    }
}

/// How many entries carrying pid `p` went from available in `a` to
/// unavailable in `b`.
pub open spec fn consumed_count(entries: Seq<RawProcess>, a: Seq<bool>, b: Seq<bool>, p: u32) -> nat
    decreases entries.len(),
{
    if entries.len() == 0 {
        0
    } else {
        let j = entries.len() - 1;
        consumed_count(entries.drop_last(), a.take(j), b.take(j), p) + if a[j] && !b[j]
            && entries[j].pid == p {
            1nat
        } else {
            0nat
        }
    }
}

proof fn lemma_consumed_refl(entries: Seq<RawProcess>, a: Seq<bool>, p: u32)
    ensures
        consumed_count(entries, a, a, p) == 0,
    decreases entries.len(),
{
    if entries.len() > 0 {
        lemma_consumed_refl(entries.drop_last(), a.take(entries.len() - 1), p);
    }
}

proof fn lemma_consumed_split(
    entries: Seq<RawProcess>,
    a: Seq<bool>,
    b: Seq<bool>,
    c: Seq<bool>,
    p: u32,
)
    requires
        a.len() == entries.len(),
        b.len() == entries.len(),
        c.len() == entries.len(),
        forall|j: int| 0 <= j < entries.len() && c[j] ==> b[j],
        forall|j: int| 0 <= j < entries.len() && b[j] ==> a[j],
    ensures
        consumed_count(entries, a, c, p) == consumed_count(entries, a, b, p) + consumed_count(
            entries,
            b,
            c,
            p,
        ),
    decreases entries.len(),
{
    if entries.len() > 0 {
        let j = entries.len() - 1;
        lemma_consumed_split(entries.drop_last(), a.take(j), b.take(j), c.take(j), p);
    }
}

proof fn lemma_consumed_clear(entries: Seq<RawProcess>, a: Seq<bool>, b: Seq<bool>, i: int, p: u32)
    requires
        a.len() == entries.len(),
        b.len() == entries.len(),
        0 <= i < entries.len(),
        b[i],
    ensures
        consumed_count(entries, a, b.update(i, false), p) == consumed_count(entries, a, b, p) + if a[i]
            && entries[i].pid == p {
            1nat
        } else {
            0nat
        },
    decreases entries.len(),
{
    let j = entries.len() - 1;
    if i == j {
        assert(b.update(i, false).take(j) =~= b.take(j));
    } else {
        assert(b.update(i, false).take(j) =~= b.take(j).update(i, false));
        lemma_consumed_clear(entries.drop_last(), a.take(j), b.take(j), i, p);
    }
}

proof fn lemma_consumed_absent(entries: Seq<RawProcess>, a: Seq<bool>, b: Seq<bool>, p: u32)
    requires
        a.len() == entries.len(),
        b.len() == entries.len(),
        forall|j: int| 0 <= j < entries.len() && entries[j].pid == p ==> !a[j],
    ensures
        consumed_count(entries, a, b, p) == 0,
    decreases entries.len(),
{
    if entries.len() > 0 {
        let j = entries.len() - 1;
        lemma_consumed_absent(entries.drop_last(), a.take(j), b.take(j), p);
    }
}

proof fn lemma_consumed_at_most_one(
    entries: Seq<RawProcess>,
    a: Seq<bool>,
    b: Seq<bool>,
    p: u32,
)
    requires
        a.len() == entries.len(),
        b.len() == entries.len(),
        unique_pids(entries),
    ensures
        consumed_count(entries, a, b, p) <= 1,
    decreases entries.len(),
{
    if entries.len() > 0 {
        let j = entries.len() - 1;
        assert(unique_pids(entries.drop_last()));
        lemma_consumed_at_most_one(entries.drop_last(), a.take(j), b.take(j), p);
        if a[j] && !b[j] && entries[j].pid == p {
            assert(forall|j2: int|
                0 <= j2 < entries.drop_last().len() ==> entries.drop_last()[j2].pid != p);
            lemma_consumed_absent(entries.drop_last(), a.take(j), b.take(j), p);
        }
    }
}

/// How many of the claimed entries carry pid `p`.
pub open spec fn kid_pid_count(entries: Seq<RawProcess>, kids: Seq<usize>, p: u32) -> nat
    decreases kids.len(),
{
    if kids.len() == 0 {
        0
    } else {
        kid_pid_count(entries, kids.drop_last(), p) + if 0 <= kids.last() < entries.len()
            && entries[kids.last() as int].pid == p {
            1nat
        } else {
            0nat
        }
    }
}

/// The claiming pass's mask after scanning `i` entries: an entry is
/// still available iff it was available at the start and was not
/// claimed, and the scanned prefix's claims are exactly the entries
/// waiting for pid `rpid`.
pub open spec fn mask_state(
    cur: Seq<bool>,
    avail0: Seq<bool>,
    entries: Seq<RawProcess>,
    rpid: u32,
    i: int,
) -> bool {
    forall|j: int|
        0 <= j < entries.len() ==> cur[j] == (avail0[j] && !(j < i && entries[j].ppid == rpid))
}

/// Pid `p` names some node of the tree rooted at `n` — and, by the
/// builder's guarantee that no pid is counted twice, exactly one.
pub open spec fn tree_has_pid(n: LocalProcessInfo, p: u32) -> bool {
    tree_pid_count(n, p) >= 1
}

/// The tree rooted at `n` is a well-formed product of the snapshot
/// `entries`: every node's fields are determined by some entry's raw
/// material, every child hangs under its parent's pid, sibling pids are
/// distinct, and no node repeats the pid of any of its ancestors (the
/// pids in `banned`) — so a walk down the tree never revisits a pid.
pub open spec fn good_subtree(
    n: LocalProcessInfo,
    entries: Seq<RawProcess>,
    banned: Set<u32>,
    now: Timestamp,
) -> bool
    decreases n,
{
    &&& !banned.contains(n.pid)
    &&& exists|i: int| 0 <= i < entries.len() && fields_match(n, #[trigger] entries[i], now)
    &&& forall|k: int| 0 <= k < n.children@.len() ==> (#[trigger] n.children@[k]).ppid == n.pid
    &&& forall|k1: int, k2: int|
        0 <= k1 < k2 < n.children@.len() ==> n.children@[k1].pid != n.children@[k2].pid
    &&& forall|k: int|
        0 <= k < n.children@.len() ==> good_subtree(
            #[trigger] n.children@[k],
            entries,
            banned.insert(n.pid),
            now,
        )
}

/// Every pid in a well-formed tree is some snapshot entry's pid.
pub proof fn lemma_tree_pids_from_snapshot(
    n: LocalProcessInfo,
    entries: Seq<RawProcess>,
    banned: Set<u32>,
    now: Timestamp,
)
    requires
        good_subtree(n, entries, banned, now),
    ensures
        forall|p: u32|
            #[trigger] tree_has_pid(n, p) ==> exists|i: int|
                0 <= i < entries.len() && entries[i].pid == p,
    decreases n,
{
    assert forall|p: u32| #[trigger] tree_has_pid(n, p) implies exists|i: int|
        0 <= i < entries.len() && entries[i].pid == p by {
        if n.pid == p {
            let i = choose|i: int| 0 <= i < entries.len() && fields_match(n, entries[i], now);
            assert(entries[i].pid == p);
        } else {
            assert(forest_pid_count(n.children@, p) >= 1);
            lemma_forest_count_member(n.children@, p);
            let k = choose|k: int|
                0 <= k < n.children@.len() && tree_pid_count(#[trigger] n.children@[k], p) >= 1;
            assert(tree_has_pid(n.children@[k], p));
            lemma_tree_pids_from_snapshot(n.children@[k], entries, banned.insert(n.pid), now);
        }
    }
}

/// Builds the node for entry `root` and, recursively, every available
/// entry whose parent chain reaches it.  `avail` marks the entries
/// still open for adoption (`root` itself must already be cleared), and
/// `banned` carries the pids of the ancestors above this node.
#[verifier::rlimit(100)]
#[verifier::loop_isolation(false)]
fn build_node(
    entries: &Vec<RawProcess>,
    root: usize,
    avail: Vec<bool>,
    Ghost(banned): Ghost<Set<u32>>,
    now: Timestamp,
) -> (res: (LocalProcessInfo, Vec<bool>))
    requires
        root < entries@.len(),
        avail@.len() == entries@.len(),
        !avail@[root as int],
        unique_pids(entries@),
        forall|j: int| 0 <= j < avail@.len() && avail@[j] ==> !banned.contains(entries@[j].pid),
        !banned.contains(entries@[root as int].pid),
    ensures
        res.1@.len() == avail@.len(),
        forall|j: int| 0 <= j < avail@.len() && res.1@[j] ==> avail@[j],
        fields_match(res.0, entries@[root as int], now),
        good_subtree(res.0, entries@, banned, now),
        forall|i: int|
            0 <= i < entries@.len() && avail@[i] && entries@[i].ppid == entries@[root as int].pid
                ==> exists|k: int|
                0 <= k < res.0.children@.len() && res.0.children@[k].pid == entries@[i].pid,
        forall|p: u32|
            #[trigger] tree_pid_count(res.0, p) == (if p == entries@[root as int].pid {
                1nat
            } else {
                0nat
            }) + consumed_count(entries@, avail@, res.1@, p),
    decreases count_avail(avail@),
{
    let ghost avail0 = avail@;
    let ghost rpid = entries@[root as int].pid;
    let root_pid = entries[root].pid;
    let mut cur = avail;

    // first pass: claim every available entry waiting for this node
    let mut kids: Vec<usize> = Vec::new();
    proof {
        assert forall|p: u32|
            #[trigger] consumed_count(entries@, avail0, cur@, p) == kid_pid_count(
                entries@,
                kids@,
                p,
            ) by {
            lemma_consumed_refl(entries@, avail0, p);
        }
    }
    let mut i: usize = 0;
    while i < entries.len()
        invariant
            root < entries@.len(),
            0 <= i <= entries@.len(),
            rpid == entries@[root as int].pid,
            root_pid == rpid,
            avail0.len() == entries@.len(),
            cur@.len() == entries@.len(),
            mask_state(cur@, avail0, entries@, rpid, i as int),
            count_avail(cur@) + kids@.len() == count_avail(avail0),
            forall|k: int|
                0 <= k < kids@.len() ==> 0 <= #[trigger] kids@[k] < i && avail0[kids@[k] as int]
                    && entries@[kids@[k] as int].ppid == rpid,
            forall|k1: int, k2: int| 0 <= k1 < k2 < kids@.len() ==> kids@[k1] < kids@[k2],
            forall|i0: int|
                0 <= i0 < i && avail0[i0] && entries@[i0].ppid == rpid ==> exists|k: int|
                    0 <= k < kids@.len() && #[trigger] kids@[k] == i0,
            forall|p: u32|
                #[trigger] consumed_count(entries@, avail0, cur@, p) == kid_pid_count(
                    entries@,
                    kids@,
                    p,
                ),
        decreases entries@.len() - i,
    {
        if cur[i] && entries[i].ppid == root_pid {
            let ghost cur_before = cur@;
            let ghost kids_before = kids@;
            cur.set(i, false);
            kids.push(i);
            proof {
                lemma_count_clear(cur_before, i as int);
                assert(kids@[kids@.len() - 1] == i as int);
                assert forall|j: int|
                    0 <= j < entries@.len() implies cur@[j] == (avail0[j] && !(j < i + 1
                    && entries@[j].ppid == rpid)) by {
                    if j != i as int {
                        assert(cur@[j] == cur_before[j]);
                    }
                }
                assert(mask_state(cur@, avail0, entries@, rpid, i + 1));
                assert forall|p: u32|
                    #[trigger] consumed_count(entries@, avail0, cur@, p) == kid_pid_count(
                        entries@,
                        kids@,
                        p,
                    ) by {
                    lemma_consumed_clear(entries@, avail0, cur_before, i as int, p);
                    assert(kids@.drop_last() =~= kids_before);
                    assert(kids@.last() == i);
                    assert(avail0[i as int]);
                }
                assert forall|i0: int|
                    0 <= i0 < i + 1 && avail0[i0] && entries@[i0].ppid == rpid implies exists|
                    k: int,
                |
                    0 <= k < kids@.len() && #[trigger] kids@[k] == i0 by {
                    if i0 == i as int {
                        assert(kids@[kids@.len() - 1] == i0);
                    } else {
                        let k = choose|k: int|
                            0 <= k < kids_before.len() && #[trigger] kids_before[k] == i0;
                        assert(kids@[k] == i0);
                    }
                }
            }
        } else {
            proof {
                assert forall|j: int|
                    0 <= j < entries@.len() implies cur@[j] == (avail0[j] && !(j < i + 1
                    && entries@[j].ppid == rpid)) by {
                    if j == i as int {
                        assert(cur@[j] == avail0[j]);
                        if entries@[j].ppid == rpid {
                            assert(!cur@[j]);
                        }
                    }
                }
                assert(mask_state(cur@, avail0, entries@, rpid, i + 1));
                assert forall|i0: int|
                    0 <= i0 < i + 1 && avail0[i0] && entries@[i0].ppid == rpid implies exists|
                    k: int,
                |
                    0 <= k < kids@.len() && #[trigger] kids@[k] == i0 by {
                    if i0 == i as int {
                        assert(cur@[i0] == avail0[i0]);
                        assert(false);
                    }
                }
            }
        }
        i += 1;
    }
    let ghost cur1 = cur@;
    proof {
        assert(forall|j: int| 0 <= j < entries@.len() && cur1[j] ==> avail0[j]);
        assert(forall|k: int|
            0 <= k < kids@.len() ==> !cur1[#[trigger] kids@[k] as int]);
    }

    // second pass: build each claimed entry's subtree
    let mut children: Vec<LocalProcessInfo> = Vec::new();
    proof {
        assert forall|p: u32|
            #[trigger] forest_pid_count(children@, p) == kid_pid_count(
                entries@,
                kids@.take(0),
                p,
            ) + consumed_count(entries@, cur1, cur@, p) by {
            lemma_consumed_refl(entries@, cur1, p);
            assert(kids@.take(0) =~= Seq::<usize>::empty());
        }
    }
    let mut k: usize = 0;
    while k < kids.len()
        invariant
            root < entries@.len(),
            unique_pids(entries@),
            rpid == entries@[root as int].pid,
            avail0.len() == entries@.len(),
            !avail0[root as int],
            forall|j: int| 0 <= j < avail0.len() && avail0[j] ==> !banned.contains(entries@[j].pid),
            !banned.contains(rpid),
            cur1.len() == entries@.len(),
            forall|j: int| 0 <= j < entries@.len() && cur1[j] ==> avail0[j],
            count_avail(cur1) + kids@.len() == count_avail(avail0),
            forall|kk: int|
                0 <= kk < kids@.len() ==> 0 <= #[trigger] kids@[kk] < entries@.len()
                    && avail0[kids@[kk] as int] && entries@[kids@[kk] as int].ppid == rpid
                    && !cur1[kids@[kk] as int],
            forall|k1: int, k2: int| 0 <= k1 < k2 < kids@.len() ==> kids@[k1] < kids@[k2],
            0 <= k <= kids@.len(),
            children@.len() == k,
            cur@.len() == entries@.len(),
            forall|j: int| 0 <= j < entries@.len() && cur@[j] ==> cur1[j],
            forall|kk: int|
                0 <= kk < k ==> fields_match(
                    #[trigger] children@[kk],
                    entries@[kids@[kk] as int],
                    now,
                ),
            forall|kk: int|
                0 <= kk < k ==> good_subtree(
                    #[trigger] children@[kk],
                    entries@,
                    banned.insert(rpid),
                    now,
                ),
            forall|p: u32|
                #[trigger] consumed_count(entries@, avail0, cur1, p) == kid_pid_count(
                    entries@,
                    kids@,
                    p,
                ),
            forall|p: u32|
                #[trigger] forest_pid_count(children@, p) == kid_pid_count(
                    entries@,
                    kids@.take(k as int),
                    p,
                ) + consumed_count(entries@, cur1, cur@, p),
        decreases kids@.len() - k,
    {
        let idx = kids[k];
        proof {
            // the adopted entry cannot carry an ancestor's pid, nor
            // this node's own: pids are unique and the root's own
            // entry is not available
            assert forall|j: int| 0 <= j < cur@.len() && cur@[j] implies !banned.insert(
                rpid,
            ).contains(entries@[j].pid) by {
                assert(avail0[j]);
                if entries@[j].pid == rpid {
                    assert(j != root as int);
                    if j < root as int {
                        assert(entries@[j].pid != entries@[root as int].pid);
                    } else {
                        assert(entries@[root as int].pid != entries@[j].pid);
                    }
                }
            }
            assert(avail0[idx as int] && !banned.contains(entries@[idx as int].pid));
            if entries@[idx as int].pid == rpid {
                assert(idx != root);
                if (idx as int) < root as int {
                    assert(entries@[idx as int].pid != entries@[root as int].pid);
                } else {
                    assert(entries@[root as int].pid != entries@[idx as int].pid);
                }
            }
            lemma_count_le(cur@, cur1);
            assert(count_avail(cur@) < count_avail(avail0));
        }
        let ghost cur_head = cur@;
        let ghost ch0 = children@;
        let (child, cur2) = build_node(entries, idx, cur, Ghost(banned.insert(rpid)), now);
        children.push(child);
        cur = cur2;
        proof {
            assert forall|p: u32|
                #[trigger] forest_pid_count(children@, p) == kid_pid_count(
                    entries@,
                    kids@.take(k as int + 1),
                    p,
                ) + consumed_count(entries@, cur1, cur@, p) by {
                lemma_forest_push(ch0, child, p);
                lemma_consumed_split(entries@, cur1, cur_head, cur@, p);
                assert(kids@.take(k as int + 1).drop_last() =~= kids@.take(k as int));
                assert(kids@.take(k as int + 1).last() == kids@[k as int]);
                assert(tree_pid_count(child, p) == (if p == entries@[idx as int].pid {
                    1nat
                } else {
                    0nat
                }) + consumed_count(entries@, cur_head, cur@, p));
            }
        }
        k += 1;
    }

    let node = node_from_raw(&entries[root], now, children);
    proof {
        assert(node.children@ == children@);
        // sibling pids are distinct because they come from distinct
        // entries of a unique-pid snapshot
        assert forall|k1: int, k2: int|
            0 <= k1 < k2 < node.children@.len() implies node.children@[k1].pid
            != node.children@[k2].pid by {
            assert(node.children@[k1].pid == entries@[kids@[k1] as int].pid);
            assert(node.children@[k2].pid == entries@[kids@[k2] as int].pid);
            assert(kids@[k1] < kids@[k2]);
        }
        assert(good_subtree(node, entries@, banned, now));
        // every available entry waiting for this node became a child
        assert forall|i2: int|
            0 <= i2 < entries@.len() && avail0[i2] && entries@[i2].ppid == rpid implies exists|
            kk: int,
        |
            0 <= kk < node.children@.len() && node.children@[kk].pid == entries@[i2].pid by {
            let kk = choose|kk: int| 0 <= kk < kids@.len() && kids@[kk] == i2;
            assert(node.children@[kk].pid == entries@[i2].pid);
        }
        assert forall|p: u32|
            #[trigger] tree_pid_count(node, p) == (if p == rpid {
                1nat
            } else {
                0nat
            }) + consumed_count(entries@, avail0, cur@, p) by {
            assert(kids@.take(kids@.len() as int) =~= kids@);
            lemma_consumed_split(entries@, avail0, cur1, cur@, p);
            assert(forest_pid_count(node.children@, p) == forest_pid_count(children@, p));
        }
    }
    (node, cur)
}

/// Builds the tree rooted at the entry whose pid is `root_pid`, or
/// nothing when no snapshot entry carries that pid — the legitimate
/// "no such running process" outcome, not an error.
///
/// On success the root's children are exactly the other entries whose
/// `ppid` equals `root_pid`, every node's fields are filled from its
/// own entry's raw material with per-field defaults (`now` is the
/// sentinel for an unreadable start time), sibling pids are distinct
/// everywhere, and no node repeats an ancestor's pid.
pub fn build(root_pid: u32, entries: &Vec<RawProcess>, now: Timestamp) -> (r: Option<
    LocalProcessInfo,
>)
    requires
        unique_pids(entries@),
    ensures
        (r is None) <==> (forall|i: int| 0 <= i < entries@.len() ==> entries@[i].pid != root_pid),
        r matches Some(n) ==> {
            &&& n.pid == root_pid
            &&& exists|i: int|
                0 <= i < entries@.len() && entries@[i].pid == root_pid && fields_match(
                    n,
                    #[trigger] entries@[i],
                    now,
                )
            &&& good_subtree(n, entries@, Set::empty(), now)
            &&& forall|i: int|
                0 <= i < entries@.len() && entries@[i].pid != root_pid && entries@[i].ppid
                    == root_pid ==> exists|k: int|
                    0 <= k < n.children@.len() && n.children@[k].pid == entries@[i].pid
            &&& forall|p: u32| #[trigger] tree_pid_count(n, p) <= 1
        },
{
    let mut ridx: usize = 0;
    let mut found: bool = false;
    let mut i: usize = 0;
    while i < entries.len()
        invariant
            0 <= i <= entries@.len(),
            !found ==> forall|j: int| 0 <= j < i ==> entries@[j].pid != root_pid,
            found ==> ridx < entries@.len() && entries@[ridx as int].pid == root_pid,
        decreases entries@.len() - i,
    {
        if !found && entries[i].pid == root_pid {
            ridx = i;
            found = true;
        }
        i += 1;
    }
    if !found {
        return None;
    }
    let mut avail: Vec<bool> = Vec::new();
    let mut k: usize = 0;
    while k < entries.len()
        invariant
            0 <= k <= entries@.len(),
            avail@.len() == k,
            forall|j: int| 0 <= j < k ==> avail@[j],
        decreases entries@.len() - k,
    {
        avail.push(true);
        k += 1;
    }
    avail.set(ridx, false);
    let ghost av = avail@;
    let (node, rest) = build_node(entries, ridx, avail, Ghost(Set::empty()), now);
    proof {
        // pids cannot repeat anywhere in the tree: the root's entry
        // was never available, and every other pid is claimed at most
        // once from a unique-pid snapshot
        assert forall|p: u32| #[trigger] tree_pid_count(node, p) <= 1 by {
            lemma_consumed_at_most_one(entries@, av, rest@, p);
            if p == root_pid {
                assert forall|j: int|
                    0 <= j < entries@.len() && entries@[j].pid == p implies !av[j] by {
                    if j != ridx as int {
                        if j < ridx as int {
                            assert(entries@[j].pid != entries@[ridx as int].pid);
                        } else {
                            assert(entries@[ridx as int].pid != entries@[j].pid);
                        }
                    }
                }
                lemma_consumed_absent(entries@, av, rest@, p);
            }
        }
        assert(entries@[ridx as int].pid == root_pid);
        assert(node.pid == root_pid);
        assert(fields_match(node, entries@[ridx as int], now));
        assert forall|i2: int|
            0 <= i2 < entries@.len() && entries@[i2].pid != root_pid && entries@[i2].ppid
                == root_pid implies exists|k2: int|
            0 <= k2 < node.children@.len() && node.children@[k2].pid == entries@[i2].pid by {
            assert(i2 != ridx as int);
            assert(av[i2]);
        }
    }
    Some(node)
}

} // verus!
