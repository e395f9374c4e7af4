use vstd::prelude::*;

verus! {

/// The views of a sequence of strings.
pub open spec fn strs(v: Seq<String>) -> Seq<Seq<char>> {
    v.map_values(|s: String| s@)
}

/// The views of the rows of a matrix.
pub open spec fn rows(m: Seq<Vec<bool>>) -> Seq<Seq<bool>> {
    m.map_values(|r: Vec<bool>| r@)
}

/// `reach` is an `n` by `n` matrix.
pub open spec fn square(reach: Seq<Seq<bool>>, n: int) -> bool {
    reach.len() == n && forall|i: int| 0 <= i < n ==> #[trigger] reach[i].len() == n
}

/// Commit `i` lies in the history of another, distinct commit of the set:
/// `reach[j][i]` holds when commit `i` is reachable from commit `j`.
pub open spec fn redundant(c: Seq<Seq<char>>, reach: Seq<Seq<bool>>, i: int) -> bool {
    exists|j: int| 0 <= j < c.len() && c[j] != c[i] && #[trigger] reach[j][i]
}

/// No earlier entry names the same commit.
pub open spec fn first_occurrence(c: Seq<Seq<char>>, i: int) -> bool {
    forall|k: int| 0 <= k < i ==> c[k] != c[i]
}

/// Commit `i` is the first entry of a commit that no other commit of the
/// set has in its history.
pub open spec fn kept(c: Seq<Seq<char>>, reach: Seq<Seq<bool>>, i: int) -> bool {
    first_occurrence(c, i) && !redundant(c, reach, i)
}

/// The kept commits among the first `n`, in input order.
pub open spec fn pruned_prefix(c: Seq<Seq<char>>, reach: Seq<Seq<bool>>, n: int) -> Seq<
    Seq<char>,
>
    decreases n,
{
    if n <= 0 {
        Seq::empty()
    } else {
        let p = pruned_prefix(c, reach, n - 1);
        if kept(c, reach, n - 1) {
            p.push(c[n - 1])
        } else {
            p
        }
    }
}

/// The minimal subset of the commits whose histories cover them all, each
/// commit once, in the order of first appearance.
pub open spec fn pruned(c: Seq<Seq<char>>, reach: Seq<Seq<bool>>) -> Seq<Seq<char>> {
    pruned_prefix(c, reach, c.len() as int)
}

/// Drops every commit that lies in the history of another commit of the set,
/// and repeated entries of one commit.
pub fn prune(commits: &Vec<String>, reach: &Vec<Vec<bool>>) -> (r: Vec<String>)
    requires
        square(rows(reach@), commits@.len() as int),
    ensures
        strs(r@) == pruned(strs(commits@), rows(reach@)),
{
    let ghost c = strs(commits@);
    let ghost m = rows(reach@);
    let n = commits.len();
    let mut r: Vec<String> = Vec::new();
    let mut i: usize = 0;
    while i < n
        invariant
            n == commits@.len(),
            c == strs(commits@),
            m == rows(reach@),
            square(m, n as int),
            i <= n,
            strs(r@) == pruned_prefix(c, m, i as int),
        decreases n - i,
    {
        let mut first = true;
        let mut k: usize = 0;
        while k < i
            invariant
                i < n,
                n == commits@.len(),
                c == strs(commits@),
                k <= i,
                first == forall|q: int| 0 <= q < k ==> c[q] != c[i as int],
            decreases i - k,
        {
            assert(c[k as int] == commits@[k as int]@ && c[i as int] == commits@[i as int]@);
            if commits[k] == commits[i] {
                first = false;
            }
            k += 1;
        }
        let mut covered = false;
        let mut j: usize = 0;
        while j < n
            invariant
                i < n,
                n == commits@.len(),
                c == strs(commits@),
                m == rows(reach@),
                square(m, n as int),
                j <= n,
                covered == exists|q: int| 0 <= q < j && c[q] != c[i as int] && #[trigger] m[q][i as int],
            decreases n - j,
        {
            assert(m[j as int] == reach@[j as int]@);
            assert(c[j as int] == commits@[j as int]@ && c[i as int] == commits@[i as int]@);
            if commits[j] != commits[i] && reach[j][i] {
                covered = true;
            }
            j += 1;
        }
        let ghost before = r@;
        if first && !covered {
            r.push(commits[i].clone());
            assert(strs(r@) =~= strs(before).push(c[i as int]));
        }
        i += 1;
    }
    r
}


proof fn lemma_prefix_members(c: Seq<Seq<char>>, reach: Seq<Seq<bool>>, n: int, x: Seq<char>)
    requires
        0 <= n <= c.len(),
    ensures
        pruned_prefix(c, reach, n).contains(x) <==> exists|i: int|
            0 <= i < n && kept(c, reach, i) && c[i] == x,
    decreases n,
{
    if n > 0 {
        lemma_prefix_members(c, reach, n - 1, x);
        let p = pruned_prefix(c, reach, n - 1);
        if kept(c, reach, n - 1) {
            if c[n - 1] == x {
                assert(p.push(c[n - 1])[p.len() as int] == x);
            }
            let q = p.push(c[n - 1]);
            if q.contains(x) {
                let w = choose|w: int| 0 <= w < q.len() && q[w] == x;
                if w < p.len() {
                    assert(p[w] == x);
                }
            }
            if p.contains(x) {
                let w = choose|w: int| 0 <= w < p.len() && p[w] == x;
                assert(q[w] == x);
            }
        }
    }
}

proof fn lemma_first_index(c: Seq<Seq<char>>, i: int)
    requires
        0 <= i < c.len(),
    ensures
        exists|k: int| 0 <= k <= i && first_occurrence(c, k) && c[k] == c[i],
    decreases i,
{
    if !first_occurrence(c, i) {
        let k = choose|k: int| 0 <= k < i && c[k] == c[i];
        lemma_first_index(c, k);
    }
}

/// A commit is in the pruned result exactly when it is one of the input
/// commits and no other input commit has it in its history. Where the
/// reachability matrix is a relation between commits, the result as a set
/// therefore does not depend on the order of the input.
pub proof fn lemma_pruned_members(
    c: Seq<Seq<char>>,
    reach: Seq<Seq<bool>>,
    rel: spec_fn(Seq<char>, Seq<char>) -> bool,
    x: Seq<char>,
)
    requires
        square(reach, c.len() as int),
        forall|i: int, j: int|
            0 <= i < c.len() && 0 <= j < c.len() ==> reach[j][i] == rel(c[j], c[i]),
    ensures
        pruned(c, reach).contains(x) <==> (c.contains(x) && !exists|y: Seq<char>|
            c.contains(y) && y != x && rel(y, x)),
{
    lemma_prefix_members(c, reach, c.len() as int, x);
    if pruned(c, reach).contains(x) {
        let i = choose|i: int| 0 <= i < c.len() && kept(c, reach, i) && c[i] == x;
        assert(c.contains(x));
        if exists|y: Seq<char>| c.contains(y) && y != x && rel(y, x) {
            let y = choose|y: Seq<char>| c.contains(y) && y != x && rel(y, x);
            let j = choose|j: int| 0 <= j < c.len() && c[j] == y;
            assert(reach[j][i]);
            assert(redundant(c, reach, i));
        }
    }
    if c.contains(x) && !exists|y: Seq<char>| c.contains(y) && y != x && rel(y, x) {
        let i = choose|i: int| 0 <= i < c.len() && c[i] == x;
        lemma_first_index(c, i);
        let k = choose|k: int| 0 <= k <= i && first_occurrence(c, k) && c[k] == c[i];
        if redundant(c, reach, k) {
            let j = choose|j: int| 0 <= j < c.len() && c[j] != c[k] && #[trigger] reach[j][k];
            assert(c.contains(c[j]));
        }
        assert(kept(c, reach, k));
    }
}

/// Of two distinct commits where one lies in the history of the other, in
/// either order, pruning keeps only the descendant.
pub proof fn lemma_prune_keeps_descendant(
    c: Seq<Seq<char>>,
    reach: Seq<Seq<bool>>,
    rel: spec_fn(Seq<char>, Seq<char>) -> bool,
    ancestor: Seq<char>,
    descendant: Seq<char>,
)
    requires
        square(reach, c.len() as int),
        forall|i: int, j: int|
            0 <= i < c.len() && 0 <= j < c.len() ==> reach[j][i] == rel(c[j], c[i]),
        c.to_set() == set![ancestor, descendant],
        ancestor != descendant,
        rel(descendant, ancestor),
        !rel(ancestor, descendant),
    ensures
        pruned(c, reach).to_set() == set![descendant],
{
    assert(c.to_set().contains(ancestor) && c.to_set().contains(descendant));
    assert(c.contains(ancestor) && c.contains(descendant));
    assert forall|x: Seq<char>| pruned(c, reach).to_set().contains(x) <==> x == descendant by {
        lemma_pruned_members(c, reach, rel, x);
        if x == descendant {
            assert forall|y: Seq<char>| c.contains(y) && y != x implies !rel(y, x) by {
                assert(c.to_set().contains(y));
                assert(set![ancestor, descendant].contains(y));
            }
        } else if c.contains(x) {
            assert(c.to_set().contains(x));
            assert(x == ancestor);
            assert(c.contains(descendant) && descendant != x && rel(descendant, x));
        }
    }
    assert(pruned(c, reach).to_set() =~= set![descendant]);
}

/// Where no commit of the input lies in the history of another, pruning
/// keeps every commit.
pub proof fn lemma_prune_keeps_unrelated(
    c: Seq<Seq<char>>,
    reach: Seq<Seq<bool>>,
    rel: spec_fn(Seq<char>, Seq<char>) -> bool,
)
    requires
        square(reach, c.len() as int),
        forall|i: int, j: int|
            0 <= i < c.len() && 0 <= j < c.len() ==> reach[j][i] == rel(c[j], c[i]),
        forall|x: Seq<char>, y: Seq<char>|
            c.contains(x) && c.contains(y) && x != y ==> !rel(y, x),
    ensures
        pruned(c, reach).to_set() == c.to_set(),
{
    assert forall|x: Seq<char>| pruned(c, reach).to_set().contains(x) <==> c.to_set().contains(
        x,
    ) by {
        lemma_pruned_members(c, reach, rel, x);
    }
    assert(pruned(c, reach).to_set() =~= c.to_set());
}

} // verus!
