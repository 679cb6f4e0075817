use vstd::prelude::*;
use crate::snapshot::ProcessInfo;

verus! {

/// Index of the first entry at or after `i` whose rank is below `rank`, or the
/// length of `list` when there is none.
pub open spec fn entry_from(list: Seq<ProcessInfo>, rank: u32, i: int) -> int
    decreases list.len() - i,
{
    if i < 0 || i >= list.len() {
        list.len() as int
    } else if rank > list[i].cpu_rank {
        i
    } else {
        entry_from(list, rank, i + 1)
    }
}

/// Where an entry of rank `rank` goes: before the first entry of lower rank,
/// after all entries of the same or higher rank.
pub open spec fn entry_position(list: Seq<ProcessInfo>, rank: u32) -> int {
    entry_from(list, rank, 0)
}

/// The list after offering `info` to a list that keeps at most `k` entries:
/// it enters at its position when that position is below `k`, and the last
/// entry falls off when the list grows beyond `k`.
pub open spec fn inserted(list: Seq<ProcessInfo>, info: ProcessInfo, k: nat) -> Seq<ProcessInfo> {
    let pos = entry_position(list, info.cpu_rank);
    if pos < k {
        let grown = list.insert(pos, info);
        if grown.len() > k {
            grown.drop_last()
        } else {
            grown
        }
    } else {
        list
    }
}

/// The list built by offering each candidate in turn to an empty list of at most `k` entries.
pub open spec fn top_of(candidates: Seq<ProcessInfo>, k: nat) -> Seq<ProcessInfo>
    decreases candidates.len(),
{
    if candidates.len() == 0 {
        Seq::empty()
    } else {
        inserted(top_of(candidates.drop_last(), k), candidates.last(), k)
    }
}

/// Entries are in order of non-increasing rank.
pub open spec fn ranked(list: Seq<ProcessInfo>) -> bool {
    forall|i: int, j: int| 0 <= i < j < list.len() ==> list[i].cpu_rank >= list[j].cpu_rank
}

proof fn lemma_entry_from(list: Seq<ProcessInfo>, rank: u32, i: int)
    requires
        0 <= i <= list.len(),
    ensures
        i <= entry_from(list, rank, i) <= list.len(),
        forall|j: int| i <= j < entry_from(list, rank, i) ==> list[j].cpu_rank >= rank,
        entry_from(list, rank, i) < list.len() ==> list[entry_from(list, rank, i)].cpu_rank
            < rank,
    decreases list.len() - i,
{
    if i < list.len() && !(rank > list[i].cpu_rank) {
        lemma_entry_from(list, rank, i + 1);
    }
}

/// Entries before the entry position rank at least `rank`; the entry at it ranks below.
pub proof fn lemma_entry_position(list: Seq<ProcessInfo>, rank: u32)
    ensures
        0 <= entry_position(list, rank) <= list.len(),
        forall|j: int| 0 <= j < entry_position(list, rank) ==> list[j].cpu_rank >= rank,
        entry_position(list, rank) < list.len() ==> list[entry_position(list, rank)].cpu_rank
            < rank,
{
    lemma_entry_from(list, rank, 0);
}

/// Inserting at the entry position keeps a ranked list ranked.
proof fn lemma_insert_ranked(list: Seq<ProcessInfo>, info: ProcessInfo)
    requires
        ranked(list),
    ensures
        ranked(list.insert(entry_position(list, info.cpu_rank), info)),
{
    lemma_entry_position(list, info.cpu_rank);
    let pos = entry_position(list, info.cpu_rank);
    let grown = list.insert(pos, info);
    assert forall|i: int, j: int| 0 <= i < j < grown.len() implies grown[i].cpu_rank
        >= grown[j].cpu_rank by {
        if j < pos {
        } else if j == pos {
        } else if i == pos {
            assert(grown[j] == list[j - 1]);
            assert(list[pos].cpu_rank >= list[j - 1].cpu_rank);
        } else if i < pos {
            assert(grown[j] == list[j - 1]);
        } else {
            assert(grown[j] == list[j - 1]);
            assert(grown[i] == list[i - 1]);
        }
    }
}

/// Offering an entry keeps a ranked list ranked.
pub proof fn lemma_inserted_ranked(list: Seq<ProcessInfo>, info: ProcessInfo, k: nat)
    requires
        ranked(list),
    ensures
        ranked(inserted(list, info, k)),
{
    lemma_insert_ranked(list, info);
    let grown = list.insert(entry_position(list, info.cpu_rank), info);
    if grown.len() > k {
        assert forall|i: int, j: int| 0 <= i < j < grown.drop_last().len() implies grown.drop_last()[i].cpu_rank
            >= grown.drop_last()[j].cpu_rank by {
            assert(grown.drop_last()[i] == grown[i] && grown.drop_last()[j] == grown[j]);
        }
    }
}

/// The list built from the candidates is ranked, holds `min(candidates, k)`
/// entries, and every candidate it leaves out ranks no higher than any entry
/// it keeps (and it leaves one out only when full).
pub proof fn lemma_top_of(candidates: Seq<ProcessInfo>, k: nat)
    ensures
        ranked(top_of(candidates, k)),
        top_of(candidates, k).len() == if candidates.len() < k {
            candidates.len()
        } else {
            k
        },
        forall|j: int|
            0 <= j < candidates.len() ==> top_of(candidates, k).contains(#[trigger] candidates[j])
                || (top_of(candidates, k).len() == k && forall|m: int|
                0 <= m < top_of(candidates, k).len() ==> candidates[j].cpu_rank
                    <= top_of(candidates, k)[m].cpu_rank),
    decreases candidates.len(),
{
    if candidates.len() > 0 {
        let s = candidates.drop_last();
        let x = candidates.last();
        lemma_top_of(s, k);
        let t = top_of(s, k);
        let r = top_of(candidates, k);
        lemma_inserted_ranked(t, x, k);
        lemma_entry_position(t, x.cpu_rank);
        let pos = entry_position(t, x.cpu_rank);
        assert(r == inserted(t, x, k));
        if pos < k {
            let grown = t.insert(pos, x);
            lemma_insert_ranked(t, x);
            assert forall|j: int| 0 <= j < candidates.len() implies r.contains(
                #[trigger] candidates[j],
            ) || (r.len() == k && forall|m: int|
                0 <= m < r.len() ==> candidates[j].cpu_rank <= r[m].cpu_rank) by {
                let e = candidates[j];
                let in_grown = if j == candidates.len() - 1 {
                    assert(grown[pos] == x);
                    pos
                } else {
                    assert(s[j] == e);
                    if t.contains(e) {
                        let p = choose|p: int| 0 <= p < t.len() && t[p] == e;
                        if p < pos {
                            assert(grown[p] == e);
                            p
                        } else {
                            assert(grown[p + 1] == e);
                            p + 1
                        }
                    } else {
                        -1
                    }
                };
                if in_grown >= 0 {
                    if grown.len() > k && in_grown == grown.len() - 1 {
                        assert forall|m: int| 0 <= m < r.len() implies e.cpu_rank
                            <= r[m].cpu_rank by {
                            assert(r[m] == grown[m]);
                        }
                    } else {
                        assert(r[in_grown] == e);
                    }
                } else {
                    assert forall|m: int| 0 <= m < r.len() implies e.cpu_rank <= r[m].cpu_rank by {
                        if m < pos {
                            assert(r[m] == t[m]);
                        } else if m == pos {
                            assert(r[m] == x);
                            assert(t[pos].cpu_rank < x.cpu_rank);
                        } else {
                            assert(r[m] == t[m - 1]);
                        }
                    }
                }
            }
        } else {
            assert(r == t);
            assert forall|j: int| 0 <= j < candidates.len() implies r.contains(
                #[trigger] candidates[j],
            ) || (r.len() == k && forall|m: int|
                0 <= m < r.len() ==> candidates[j].cpu_rank <= r[m].cpu_rank) by {
                if j < candidates.len() - 1 {
                    assert(s[j] == candidates[j]);
                }
            }
        }
    }
}

/// Offers `info` to `list`, which keeps at most `k` entries in order of
/// non-increasing rank: the entry goes before the first entry of lower rank
/// when that position is below `k`, and the last entry falls off when the
/// list grows beyond `k`.
pub fn insert_top(list: &mut Vec<ProcessInfo>, info: ProcessInfo, k: usize)
    ensures
        final(list)@ == inserted(old(list)@, info, k as nat),
{
    let rank = info.cpu_rank;
    let mut pos: usize = 0;
    while pos < list.len() && !(rank > list[pos].cpu_rank)
        invariant
            pos <= list@.len(),
            entry_from(list@, rank, pos as int) == entry_position(list@, rank),
        decreases list@.len() - pos,
    {
        pos = pos + 1;
    }
    if pos < k {
        list.insert(pos, info);
        if list.len() > k {
            list.pop();
        }
    }
}

/// The at most `k` candidates of highest rank, offered in the given order:
/// among equal ranks the earlier candidate comes first.
pub fn top_processes(candidates: Vec<ProcessInfo>, k: usize) -> (r: Vec<ProcessInfo>)
    ensures
        r@ == top_of(candidates@, k as nat),
{
    let ghost all = candidates@;
    let mut list: Vec<ProcessInfo> = Vec::new();
    for info in it: candidates
        invariant
            it.seq() == all,
            list@ == top_of(all.take(it.index() as int), k as nat),
    {
        proof {
            assert(all.take(it.index() as int + 1).drop_last() =~= all.take(it.index() as int));
        }
        insert_top(&mut list, info, k);
    }
    assert(all.take(all.len() as int) =~= all);
    list
}

/// `sorted` is `candidates` arranged by non-increasing rank, equal ranks kept
/// in arrival order: `order[i]` is the arrival index of `sorted[i]`, and
/// every arrival index occurs once.
pub open spec fn is_stable_ranking(
    candidates: Seq<ProcessInfo>,
    sorted: Seq<ProcessInfo>,
    order: Seq<int>,
) -> bool {
    &&& sorted.len() == candidates.len()
    &&& order.len() == candidates.len()
    &&& forall|i: int|
        0 <= i < order.len() ==> 0 <= #[trigger] order[i] < candidates.len() && sorted[i]
            == candidates[order[i]]
    &&& forall|i: int, j: int| 0 <= i < j < order.len() ==> order[i] != order[j]
    &&& ranked(sorted)
    &&& forall|i: int, j: int|
        0 <= i < j < sorted.len() && sorted[i].cpu_rank == sorted[j].cpu_rank ==> order[i]
            < order[j]
}

/// The candidates arranged by inserting each after every entry of the same
/// or higher rank.
pub open spec fn arranged(candidates: Seq<ProcessInfo>) -> Seq<ProcessInfo>
    decreases candidates.len(),
{
    if candidates.len() == 0 {
        Seq::empty()
    } else {
        let prev = arranged(candidates.drop_last());
        prev.insert(entry_position(prev, candidates.last().cpu_rank), candidates.last())
    }
}

/// The arrival indexes in the order of `arranged`.
pub open spec fn arrival_order(candidates: Seq<ProcessInfo>) -> Seq<int>
    decreases candidates.len(),
{
    if candidates.len() == 0 {
        Seq::empty()
    } else {
        let prev = arranged(candidates.drop_last());
        arrival_order(candidates.drop_last()).insert(
            entry_position(prev, candidates.last().cpu_rank),
            candidates.len() - 1,
        )
    }
}

proof fn lemma_entry_from_take(list: Seq<ProcessInfo>, rank: u32, m: int, i: int)
    requires
        0 <= i <= m <= list.len(),
    ensures
        entry_from(list.take(m), rank, i) == if entry_from(list, rank, i) < m {
            entry_from(list, rank, i)
        } else {
            m
        },
    decreases m - i,
{
    lemma_entry_from(list, rank, i);
    if i < m {
        assert(list.take(m)[i] == list[i]);
        if !(rank > list[i].cpu_rank) {
            lemma_entry_from_take(list, rank, m, i + 1);
        }
    }
}

proof fn lemma_stable_step(
    xs: Seq<ProcessInfo>,
    x: ProcessInfo,
    ys: Seq<ProcessInfo>,
    p: Seq<int>,
)
    requires
        is_stable_ranking(xs, ys, p),
    ensures
        is_stable_ranking(
            xs.push(x),
            ys.insert(entry_position(ys, x.cpu_rank), x),
            p.insert(entry_position(ys, x.cpu_rank), xs.len() as int),
        ),
{
    let n = xs.len() as int;
    let candidates = xs.push(x);
    let pos = entry_position(ys, x.cpu_rank);
    lemma_entry_position(ys, x.cpu_rank);
    let ys2 = ys.insert(pos, x);
    let p2 = p.insert(pos, n);
    lemma_insert_ranked(ys, x);
    assert forall|i: int| 0 <= i < p2.len() implies 0 <= #[trigger] p2[i] < candidates.len()
        && ys2[i] == candidates[p2[i]] by {
        if i < pos {
            assert(ys2[i] == ys[i] && p2[i] == p[i]);
            assert(xs[p[i]] == candidates[p[i]]);
        } else if i > pos {
            assert(ys2[i] == ys[i - 1] && p2[i] == p[i - 1]);
            assert(0 <= p[i - 1] < n);
            assert(xs[p[i - 1]] == candidates[p[i - 1]]);
        }
    }
    assert forall|i: int, j: int| 0 <= i < j < p2.len() implies p2[i] != p2[j] by {
        if i < pos && j < pos {
        } else if i < pos && j == pos {
            assert(0 <= p[i] < n);
        } else if i < pos {
            assert(p2[j] == p[j - 1]);
        } else if i == pos {
            assert(p2[j] == p[j - 1]);
            assert(0 <= p[j - 1] < n);
        } else {
            assert(p2[j] == p[j - 1] && p2[i] == p[i - 1]);
        }
    }
    assert forall|i: int, j: int|
        0 <= i < j < ys2.len() && ys2[i].cpu_rank == ys2[j].cpu_rank implies p2[i] < p2[j] by {
        if j < pos {
        } else if j == pos {
            assert(0 <= p[i] < n);
        } else if i == pos {
            assert(ys2[j] == ys[j - 1]);
            assert(ys[pos].cpu_rank >= ys[j - 1].cpu_rank);
        } else if i < pos {
            assert(ys2[j] == ys[j - 1] && p2[j] == p[j - 1]);
        } else {
            assert(ys2[j] == ys[j - 1] && p2[j] == p[j - 1]);
            assert(ys2[i] == ys[i - 1] && p2[i] == p[i - 1]);
        }
    }
}

proof fn lemma_take_step(ys: Seq<ProcessInfo>, x: ProcessInfo, k: nat)
    ensures
        ({
            let n = ys.len() as int;
            let m: int = if n < k {
                n
            } else {
                k as int
            };
            let m2: int = if n + 1 < k {
                n + 1
            } else {
                k as int
            };
            inserted(ys.take(m), x, k) == ys.insert(entry_position(ys, x.cpu_rank), x).take(m2)
        }),
{
    let n = ys.len() as int;
    let m: int = if n < k {
        n
    } else {
        k as int
    };
    let m2: int = if n + 1 < k {
        n + 1
    } else {
        k as int
    };
    let pos = entry_position(ys, x.cpu_rank);
    lemma_entry_position(ys, x.cpu_rank);
    let ys2 = ys.insert(pos, x);
    let t = ys.take(m);
    lemma_entry_from_take(ys, x.cpu_rank, m, 0);
    let pt = entry_position(t, x.cpu_rank);
    if pt < k {
        let grown = t.insert(pt, x);
        if pos < m {
            assert(grown =~= ys2.take(m + 1));
            if grown.len() > k {
                assert(grown.drop_last() =~= ys2.take(m2));
            } else {
                assert(grown =~= ys2.take(m2));
            }
        } else {
            assert(t =~= ys);
            assert(grown =~= ys2.take(m2));
        }
    } else {
        assert(t =~= ys2.take(m2));
    }
}

proof fn lemma_arranged(candidates: Seq<ProcessInfo>, k: nat)
    ensures
        is_stable_ranking(candidates, arranged(candidates), arrival_order(candidates)),
        top_of(candidates, k) == arranged(candidates).take(
            if candidates.len() < k {
                candidates.len() as int
            } else {
                k as int
            },
        ),
    decreases candidates.len(),
{
    if candidates.len() > 0 {
        let xs = candidates.drop_last();
        let x = candidates.last();
        lemma_arranged(xs, k);
        assert(candidates =~= xs.push(x));
        lemma_stable_step(xs, x, arranged(xs), arrival_order(xs));
        lemma_take_step(arranged(xs), x, k);
    }
}

/// Offering the candidates one by one yields exactly the first `min(n, k)`
/// entries of the candidates stably sorted by non-increasing rank: the `k`
/// highest, equal ranks in arrival order.
pub proof fn lemma_top_is_stable_top_k(candidates: Seq<ProcessInfo>, k: nat)
    ensures
        exists|sorted: Seq<ProcessInfo>, order: Seq<int>|
            is_stable_ranking(candidates, sorted, order) && top_of(candidates, k) == sorted.take(
                if candidates.len() < k {
                    candidates.len() as int
                } else {
                    k as int
                },
            ),
{
    lemma_arranged(candidates, k);
    let sorted = arranged(candidates);
    let order = arrival_order(candidates);
    assert(is_stable_ranking(candidates, sorted, order));
}

} // verus!
