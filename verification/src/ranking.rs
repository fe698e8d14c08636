//! Rankings of what is made of other things: whether there is one.
use vstd::prelude::*;

verus! {

/// Whether one of a kind of rankings gives the thing at `i` the rank `n`.
pub open spec fn attained(
    rankings: spec_fn(spec_fn(int) -> nat) -> bool,
    i: int,
    n: nat,
) -> bool {
    exists|rank: spec_fn(int) -> nat| #[trigger] rankings(rank) && rank(i) == n
}

/// Whether `n` is the least rank above zero that one of a kind of rankings
/// gives the thing at `i`.
pub open spec fn is_least(
    rankings: spec_fn(spec_fn(int) -> nat) -> bool,
    i: int,
    n: nat,
) -> bool {
    &&& n > 0
    &&& attained(rankings, i, n)
    &&& forall|m: nat| 0 < m < n ==> !#[trigger] attained(rankings, i, m)
}

/// The least rank above zero that one of a kind of rankings gives the thing
/// at `i`, or zero if none gives it one.
pub open spec fn least_rank(rankings: spec_fn(spec_fn(int) -> nat) -> bool, i: int) -> nat {
    if exists|n: nat| #[trigger] is_least(rankings, i, n) {
        choose|n: nat| #[trigger] is_least(rankings, i, n)
    } else {
        0
    }
}

proof fn lemma_least_exists(
    rankings: spec_fn(spec_fn(int) -> nat) -> bool,
    i: int,
    n: nat,
)
    requires
        n > 0,
        attained(rankings, i, n),
    ensures
        exists|m: nat| m <= n && #[trigger] is_least(rankings, i, m),
    decreases n,
{
    if exists|m: nat| 0 < m < n && #[trigger] attained(rankings, i, m) {
        let m = choose|m: nat| 0 < m < n && #[trigger] attained(rankings, i, m);
        lemma_least_exists(rankings, i, m);
    } else {
        assert(is_least(rankings, i, n));
    }
}

/// What a ranking ranks, the least rank ranks no higher.
pub proof fn lemma_least_rank(
    rankings: spec_fn(spec_fn(int) -> nat) -> bool,
    rank: spec_fn(int) -> nat,
    i: int,
)
    requires
        rankings(rank),
        rank(i) > 0,
    ensures
        is_least(rankings, i, least_rank(rankings, i)),
        least_rank(rankings, i) <= rank(i),
{
    assert(attained(rankings, i, rank(i)));
    lemma_least_exists(rankings, i, rank(i));
    let m = choose|m: nat| m <= rank(i) && #[trigger] is_least(rankings, i, m);
    let n = least_rank(rankings, i);
    assert(is_least(rankings, i, n));
    if n > m {
        assert(!attained(rankings, i, m));
    }
}

/// What has parts, or what cannot be ranked at all.
pub open spec fn nodes_of(nodes: Seq<Option<Vec<usize>>>) -> Seq<Option<Seq<usize>>> {
    Seq::new(
        nodes.len(),
        |i: int|
            match nodes[i] {
                Some(parts) => Some(parts@),
                None => None,
            },
    )
}

/// Whether what is at `i` can be ranked, and its parts are ranked below it.
pub open spec fn parts_below(
    nodes: Seq<Option<Seq<usize>>>,
    rank: spec_fn(int) -> nat,
    i: int,
) -> bool {
    &&& 0 <= i < nodes.len()
    &&& nodes[i] is Some
    &&& forall|k: int|
        #![trigger nodes[i]->0[k]]
        0 <= k < nodes[i]->0.len() ==> 0 < rank(nodes[i]->0[k] as int) < rank(i)
}

/// Whether the parts of everything that is ranked are ranked below it.
pub open spec fn ranked(nodes: Seq<Option<Seq<usize>>>, rank: spec_fn(int) -> nat) -> bool {
    forall|i: int| rank(i) > 0 ==> #[trigger] parts_below(nodes, rank, i)
}

/// The ranks that a list of stamps gives.
pub open spec fn ranks_of(stamps: Seq<usize>) -> spec_fn(int) -> nat {
    |i: int|
        if 0 <= i < stamps.len() {
            stamps[i] as nat
        } else {
            0
        }
}

/// Whether everything that is ranked has a stamp.
pub open spec fn all_stamped(rank: spec_fn(int) -> nat, stamps: Seq<usize>) -> bool {
    forall|i: int| #[trigger] rank(i) > 0 ==> 0 <= i < stamps.len() && stamps[i] != 0
}

/// How many of the first `n` stamps are missing.
spec fn missing(stamps: Seq<usize>, n: int) -> nat
    decreases n,
{
    if n <= 0 {
        0
    } else if stamps[n - 1] == 0 {
        missing(stamps, n - 1) + 1
    } else {
        missing(stamps, n - 1)
    }
}

proof fn lemma_missing_update(stamps: Seq<usize>, n: int, i: int, stamp: usize)
    requires
        0 <= n <= stamps.len(),
        0 <= i < stamps.len(),
        stamps[i] == 0,
        stamp != 0,
    ensures
        missing(stamps.update(i, stamp), n) + (if i < n {
            1nat
        } else {
            0nat
        }) == missing(stamps, n),
    decreases n,
{
    if n > 0 {
        lemma_missing_update(stamps, n - 1, i, stamp);
    }
}

proof fn lemma_missing(stamps: Seq<usize>, n: int)
    requires
        0 <= n <= stamps.len(),
    ensures
        missing(stamps, n) <= n,
        (forall|j: int| 0 <= j < n ==> stamps[j] == 0) ==> missing(stamps, n) == n,
        missing(stamps, n) == 0 ==> forall|j: int| 0 <= j < n ==> stamps[j] != 0,
        forall|j: int| 0 <= j < n && stamps[j] == 0 ==> missing(stamps, n) > 0,
    decreases n,
{
    if n > 0 {
        lemma_missing(stamps, n - 1);
    }
}

/// Whether what is at `i` cannot be ranked, or a part of it has no stamp.
spec fn blocked(nodes: Seq<Option<Seq<usize>>>, stamps: Seq<usize>, i: int) -> bool {
    nodes[i] is None || exists|k: int|
        0 <= k < nodes[i]->0.len() && (#[trigger] nodes[i]->0[k] >= stamps.len()
            || stamps[nodes[i]->0[k] as int] == 0)
}

/// Whether the parts of everything stamped were stamped earlier.
spec fn stamped(nodes: Seq<Option<Seq<usize>>>, stamps: Seq<usize>, last: usize) -> bool {
    &&& stamps.len() == nodes.len()
    &&& forall|i: int| 0 <= i < stamps.len() ==> #[trigger] stamps[i] <= last
    &&& forall|i: int| 0 <= i < stamps.len() && #[trigger] stamps[i] != 0 ==> nodes[i] is Some
    &&& forall|i: int, k: int|
        #![trigger nodes[i]->0[k]]
        0 <= i < stamps.len() && stamps[i] != 0 && 0 <= k < nodes[i]->0.len() ==> nodes[i]->0[k]
            < stamps.len() && 0 < stamps[nodes[i]->0[k] as int] < stamps[i]
}

/// What is ranked is stamped, if nothing more can be.
proof fn lemma_all_stamped(
    nodes: Seq<Option<Seq<usize>>>,
    stamps: Seq<usize>,
    rank: spec_fn(int) -> nat,
    i: int,
)
    requires
        stamps.len() == nodes.len(),
        ranked(nodes, rank),
        forall|j: int|
            0 <= j < nodes.len() && stamps[j] == 0 ==> #[trigger] blocked(nodes, stamps, j),
        rank(i) > 0,
    ensures
        0 <= i < stamps.len(),
        stamps[i] != 0,
    decreases rank(i),
{
    assert(parts_below(nodes, rank, i));
    if stamps[i] == 0 {
        assert(blocked(nodes, stamps, i));
        let k = choose|k: int|
            0 <= k < nodes[i]->0.len() && (#[trigger] nodes[i]->0[k] >= stamps.len()
                || stamps[nodes[i]->0[k] as int] == 0);
        lemma_all_stamped(nodes, stamps, rank, nodes[i]->0[k] as int);
    }
}

/// Whether all parts of a thing have a stamp.
fn is_ready(
    parts: &Vec<usize>,
    stamps: &Vec<usize>,
    Ghost(all): Ghost<Seq<Option<Seq<usize>>>>,
    Ghost(i): Ghost<int>,
) -> (b: bool)
    requires
        0 <= i < all.len(),
        all[i] == Some(parts@),
    ensures
        b == !blocked(all, stamps@, i),
{
    let mut k: usize = 0;
    while k < parts.len()
        invariant
            0 <= k <= parts@.len(),
            0 <= i < all.len(),
            all[i] == Some(parts@),
            forall|j: int|
                0 <= j < k ==> #[trigger] all[i]->0[j] < stamps@.len()
                    && stamps@[all[i]->0[j] as int] != 0,
        decreases parts@.len() - k,
    {
        let part = parts[k];
        assert(all[i]->0[k as int] == part);
        if part >= stamps.len() || stamps[part] == 0 {
            return false;
        }
        k += 1;
    }
    true
}

/// Ranks above zero for everything that can have one, such that the parts of
/// a thing rank below it.
pub fn rank_parts(nodes: &Vec<Option<Vec<usize>>>) -> (stamps: Vec<usize>)
    ensures
        stamps@.len() == nodes@.len(),
        ranked(nodes_of(nodes@), ranks_of(stamps@)),
        forall|rank: spec_fn(int) -> nat| #[trigger]
            ranked(nodes_of(nodes@), rank) ==> all_stamped(rank, stamps@),
{
    let ghost all = nodes_of(nodes@);
    let n = nodes.len();
    let mut stamps: Vec<usize> = Vec::new();
    while stamps.len() < n
        invariant
            stamps@.len() <= n,
            forall|j: int| 0 <= j < stamps@.len() ==> stamps@[j] == 0,
        decreases n - stamps@.len(),
    {
        stamps.push(0);
    }
    proof {
        lemma_missing(stamps@, n as int);
    }
    let mut last: usize = 0;
    let mut stuck = false;
    while !stuck
        invariant
            n == nodes@.len(),
            all == nodes_of(nodes@),
            stamps@.len() == n,
            stamped(all, stamps@, last),
            last + missing(stamps@, n as int) == n,
            stuck ==> forall|j: int|
                0 <= j < n && stamps@[j] == 0 ==> #[trigger] blocked(all, stamps@, j),
        decreases
                missing(stamps@, n as int),
                (if stuck {
                    0int
                } else {
                    1int
                }),
    {
        stuck = true;
        let ghost start = stamps@;
        let mut i: usize = 0;
        while i < n
            invariant
                0 <= i <= n,
                n == nodes@.len(),
                all == nodes_of(nodes@),
                stamps@.len() == n,
                stamped(all, stamps@, last),
                last + missing(stamps@, n as int) == n,
                stuck ==> stamps@ == start,
                !stuck ==> missing(stamps@, n as int) < missing(start, n as int),
                stuck ==> forall|j: int|
                    0 <= j < i && stamps@[j] == 0 ==> #[trigger] blocked(all, stamps@, j),
            decreases n - i,
        {
            let ready = match &nodes[i] {
                Some(parts) => {
                    assert(all[i as int] == Some(parts@));
                    is_ready(parts, &stamps, Ghost(all), Ghost(i as int))
                },
                None => {
                    assert(all[i as int] is None);
                    false
                },
            };
            if stamps[i] == 0 && ready {
                let ghost before = stamps@;
                proof {
                    lemma_missing(stamps@, n as int);
                    lemma_missing_update(stamps@, n as int, i as int, (last + 1) as usize);
                }
                last += 1;
                stamps.set(i, last);
                stuck = false;
                assert(stamped(all, stamps@, last)) by {
                    assert forall|j: int, k: int|
                        #![trigger all[j]->0[k]]
                        0 <= j < n && stamps@[j] != 0 && 0 <= k < all[j]->0.len() implies
                        all[j]->0[k] < n && 0 < stamps@[all[j]->0[k] as int] < stamps@[j] by {
                        if j == i {
                            assert(before[all[j]->0[k] as int] != 0);
                        } else {
                            assert(before[j] == stamps@[j]);
                        }
                    }
                }
            }
            i += 1;
        }
    }
    proof {
        let rank = ranks_of(stamps@);
        assert forall|i: int| rank(i) > 0 implies #[trigger] parts_below(all, rank, i) by {
            assert(stamps@[i] != 0);
        }
        assert forall|rank: spec_fn(int) -> nat| #[trigger]
            ranked(all, rank) implies all_stamped(rank, stamps@) by {
            assert forall|i: int| #[trigger] rank(i) > 0 implies 0 <= i < stamps@.len()
                && stamps@[i] != 0 by {
                lemma_all_stamped(all, stamps@, rank, i);
            }
        }
    }
    stamps
}

} // verus!
