use vstd::prelude::*;

use crate::error::LedgerError;
use crate::order::name_less;
use crate::manifest::{
    heads_view, lemma_lookup_none, lookup, sorted_keys, DependencyView, Head, Manifest,
    ManifestView,
};
use crate::prune::{prune, pruned, rows, square, strs};
use crate::resolve::lookup_head;

verus! {

/// Two reference sets agree on every name.
pub open spec fn same_heads(a: Seq<(Seq<char>, Seq<char>)>, b: Seq<(Seq<char>, Seq<char>)>) -> bool {
    forall|k: Seq<char>| #[trigger] lookup(a, k) == lookup(b, k)
}

fn covers(a: &Vec<(String, Head)>, b: &Vec<(String, Head)>) -> (r: bool)
    ensures
        r == forall|i: int|
            0 <= i < a@.len() ==> lookup(heads_view(b@), #[trigger] a@[i].0@) == lookup(
                heads_view(a@),
                a@[i].0@,
            ),
{
    let mut i: usize = 0;
    while i < a.len()
        invariant
            i <= a@.len(),
            forall|q: int|
                0 <= q < i ==> lookup(heads_view(b@), #[trigger] a@[q].0@) == lookup(
                    heads_view(a@),
                    a@[q].0@,
                ),
        decreases a@.len() - i,
    {
        let x = lookup_head(a, &a[i].0);
        let y = lookup_head(b, &a[i].0);
        let same = match (x, y) {
            (Some(p), Some(q)) => p == q,
            (None, None) => true,
            _ => false,
        };
        if !same {
            return false;
        }
        i += 1;
    }
    true
}

/// Whether two recorded reference sets agree on every name, whatever the
/// order of their entries.
pub fn heads_equal(a: &Vec<(String, Head)>, b: &Vec<(String, Head)>) -> (r: bool)
    ensures
        r == same_heads(heads_view(a@), heads_view(b@)),
{
    let ghost ha = heads_view(a@);
    let ghost hb = heads_view(b@);
    let r = covers(a, b) && covers(b, a);
    proof {
        if r {
            assert forall|k: Seq<char>| #[trigger] lookup(ha, k) == lookup(hb, k) by {
                if exists|i: int| 0 <= i < a@.len() && a@[i].0@ == k {
                    let i = choose|i: int| 0 <= i < a@.len() && a@[i].0@ == k;
                    assert(lookup(hb, a@[i].0@) == lookup(ha, a@[i].0@));
                } else if exists|i: int| 0 <= i < b@.len() && b@[i].0@ == k {
                    let i = choose|i: int| 0 <= i < b@.len() && b@[i].0@ == k;
                    assert(lookup(ha, b@[i].0@) == lookup(hb, b@[i].0@));
                } else {
                    assert forall|j: int| 0 <= j < ha.len() implies ha[j].0 != k by {
                        assert(ha[j].0 == a@[j].0@);
                    }
                    assert forall|j: int| 0 <= j < hb.len() implies hb[j].0 != k by {
                        assert(hb[j].0 == b@[j].0@);
                    }
                    lemma_lookup_none(ha, k);
                    lemma_lookup_none(hb, k);
                }
            }
        }
    }
    r
}

/// What one fetch of a dependency brought: the references its remote
/// advertises, the commits among them that are present locally, and which of
/// those lie in the history of which (`reach[j][i]`: commit `i` is reachable
/// from commit `j`).
pub struct Fetched {
    pub heads: Vec<(String, Head)>,
    pub commits: Vec<String>,
    pub reach: Vec<Vec<bool>>,
}

/// A fetch outcome as plain values.
pub struct FetchedView {
    pub heads: Seq<(Seq<char>, Seq<char>)>,
    pub commits: Seq<Seq<char>>,
    pub reach: Seq<Seq<bool>>,
}

impl View for Fetched {
    type V = FetchedView;

    open spec fn view(&self) -> FetchedView {
        FetchedView { heads: heads_view(self.heads@), commits: strs(self.commits@), reach: rows(self.reach@) }
    }
}

/// The reachability matrix has one row and one column per commit.
pub open spec fn fetched_wf(f: FetchedView) -> bool {
    square(f.reach, f.commits.len() as int)
}

/// A fetch outcome as plain values, `None` where the fetch failed.
pub open spec fn outcome_view(o: Option<Fetched>) -> Option<FetchedView> {
    match o {
        Some(f) => Some(f@),
        None => None,
    }
}

/// The name filter of a sync: no names selects every dependency.
pub open spec fn selected(names: Seq<Seq<char>>, name: Seq<char>) -> bool {
    names.len() == 0 || names.contains(name)
}

/// Indices, ascending, of the first `n` dependencies that the names select.
pub open spec fn targets_of(
    deps: Seq<(Seq<char>, DependencyView)>,
    names: Seq<Seq<char>>,
    n: int,
) -> Seq<int>
    decreases n,
{
    if n <= 0 {
        Seq::empty()
    } else {
        let t = targets_of(deps, names, n - 1);
        if selected(names, deps[n - 1].0) {
            t.push(n - 1)
        } else {
            t
        }
    }
}

/// A sync of the dependencies of `m` that `names` selects, before any fetch.
pub open spec fn start_view(m: ManifestView, names: Seq<Seq<char>>) -> SyncView {
    SyncView {
        manifest: m,
        targets: targets_of(m.dependencies, names, m.dependencies.len() as int),
        next: 0,
        changed: Seq::empty(),
        gathered: Seq::empty(),
        failed: false,
    }
}

/// A sync in progress: which dependencies are to be fetched, how far it has
/// come, the names of those whose references changed, and the pruned commits
/// of every dependency fetched so far, in fetch order.
pub struct SyncView {
    pub manifest: ManifestView,
    pub targets: Seq<int>,
    pub next: int,
    pub changed: Seq<Seq<char>>,
    pub gathered: Seq<Seq<char>>,
    pub failed: bool,
}

/// Dependency names stay in order, and the targets and the position are
/// within bounds.
pub open spec fn sync_wf(v: SyncView) -> bool {
    &&& sorted_keys(v.manifest.dependencies)
    &&& 0 <= v.next <= v.targets.len()
    &&& forall|q: int|
        0 <= q < v.targets.len() ==> 0 <= #[trigger] v.targets[q] < v.manifest.dependencies.len()
}

/// The session after one fetch outcome (`None`: the fetch failed). Every
/// successful fetch adds its pruned commits; a dependency whose references
/// did not change keeps its entry as it was.
pub open spec fn after_record(v: SyncView, outcome: Option<FetchedView>) -> SyncView {
    match outcome {
        None => SyncView {
            manifest: v.manifest,
            targets: v.targets,
            next: v.next,
            changed: v.changed,
            gathered: v.gathered,
            failed: true,
        },
        Some(f) => {
            let i = v.targets[v.next];
            let d = v.manifest.dependencies[i];
            if same_heads(d.1.heads, f.heads) {
                SyncView {
                    manifest: v.manifest,
                    targets: v.targets,
                    next: v.next + 1,
                    changed: v.changed,
                    gathered: v.gathered + pruned(f.commits, f.reach),
                    failed: false,
                }
            } else {
                SyncView {
                    manifest: ManifestView {
                        version: v.manifest.version,
                        dependencies: v.manifest.dependencies.update(
                            i,
                            (d.0, DependencyView { url: d.1.url, heads: f.heads }),
                        ),
                    },
                    targets: v.targets,
                    next: v.next + 1,
                    changed: v.changed.push(d.0),
                    gathered: v.gathered + pruned(f.commits, f.reach),
                    failed: false,
                }
            }
        },
    }
}

/// The commits that the ledger commit of a finished sync retains: those
/// gathered from every synced dependency where any references changed, none
/// where nothing changed.
pub open spec fn retained(v: SyncView) -> Seq<Seq<char>> {
    if v.changed.len() == 0 {
        Seq::empty()
    } else {
        v.gathered
    }
}

/// What a finished sync hands to the ledger: the new manifest, the names of
/// the dependencies whose references changed, and the commits to retain.
pub struct SyncOutcome {
    pub manifest: Manifest,
    pub changed: Vec<String>,
    pub extra_parents: Vec<String>,
}

/// A multi-dependency sync, driven one fetch at a time: it holds every edit
/// in memory until `finish`, so a failed fetch leaves nothing to commit.
pub struct SyncSession {
    manifest: Manifest,
    targets: Vec<usize>,
    next: usize,
    changed: Vec<String>,
    gathered: Vec<String>,
    failed: bool,
}

impl View for SyncSession {
    type V = SyncView;

    closed spec fn view(&self) -> SyncView {
        SyncView {
            manifest: self.manifest@,
            targets: self.targets@.map_values(|t: usize| t as int),
            next: self.next as int,
            changed: strs(self.changed@),
            gathered: strs(self.gathered@),
            failed: self.failed,
        }
    }
}

impl SyncSession {
    /// The session is well formed.
    pub open spec fn wf(&self) -> bool {
        sync_wf(self@)
    }

    /// Starts a sync of the dependencies that `names` selects.
    pub fn start(manifest: Manifest, names: &Vec<String>) -> (r: SyncSession)
        requires
            manifest.wf(),
        ensures
            r.wf(),
            r@ == start_view(manifest@, strs(names@)),
    {
        let ghost deps = manifest@.dependencies;
        let ghost nv = strs(names@);
        let mut targets: Vec<usize> = Vec::new();
        let n = manifest.dependencies().len();
        let mut i: usize = 0;
        while i < n
            invariant
                n == deps.len(),
                deps == manifest@.dependencies,
                nv == strs(names@),
                i <= n,
                targets@.map_values(|t: usize| t as int) == targets_of(deps, nv, i as int),
                forall|q: int| 0 <= q < targets@.len() ==> #[trigger] targets@[q] < i,
            decreases n - i,
        {
            let name = &manifest.dependencies()[i].0;
            assert(deps[i as int].0 == name@);
            let mut wanted = names.len() == 0;
            let mut k: usize = 0;
            while k < names.len()
                invariant
                    k <= names@.len(),
                    nv == strs(names@),
                    wanted == (names@.len() == 0 || exists|q: int| 0 <= q < k && nv[q] == name@),
                decreases names@.len() - k,
            {
                assert(nv[k as int] == names@[k as int]@);
                if names[k] == *name {
                    wanted = true;
                }
                k += 1;
            }
            proof {
                if exists|q: int| 0 <= q < names@.len() && nv[q] == name@ {
                    assert(nv.contains(name@));
                }
                if nv.contains(name@) {
                    let q = choose|q: int| 0 <= q < nv.len() && nv[q] == name@;
                    assert(0 <= q < names@.len());
                }
            }
            let ghost before = targets@;
            if wanted {
                targets.push(i);
                assert(targets@.map_values(|t: usize| t as int) =~= before.map_values(
                    |t: usize| t as int,
                ).push(i as int));
            }
            i += 1;
        }
        let r = SyncSession {
            manifest,
            targets,
            next: 0,
            changed: Vec::new(),
            gathered: Vec::new(),
            failed: false,
        };
        assert(r@.changed =~= Seq::empty());
        assert(r@.gathered =~= Seq::empty());
        r
    }

    /// The location of the next dependency to fetch, if the sync still has
    /// one to fetch.
    pub fn next_fetch(&self) -> (r: Option<String>)
        requires
            self.wf(),
        ensures
            r is None <==> (self@.failed || self@.next >= self@.targets.len()),
            r matches Some(u) ==> u@ == self@.manifest.dependencies[self@.targets[self@.next]].1.url,
    {
        if self.failed || self.next >= self.targets.len() {
            None
        } else {
            let i = self.targets[self.next];
            assert(self@.targets[self@.next] == i as int);
            let deps = self.manifest.dependencies();
            assert(deps_view_at(deps@, i as int) == self@.manifest.dependencies[i as int]);
            Some(deps[i].1.url.clone())
        }
    }

    /// Takes in the outcome of the pending fetch (`None`: it failed).
    pub fn record(&mut self, outcome: Option<Fetched>)
        requires
            old(self).wf(),
            !old(self)@.failed,
            old(self)@.next < old(self)@.targets.len(),
            outcome matches Some(f) ==> fetched_wf(f@),
        ensures
            final(self).wf(),
            final(self)@ == after_record(old(self)@, outcome_view(outcome)),
    {
        let ghost v = self@;
        match outcome {
            None => {
                self.failed = true;
            },
            Some(f) => {
                let next = self.next;
                let len = self.targets.len();
                assert(next < len);
                let i = self.targets[next];
                assert(v.targets[v.next] == i as int);
                let ghost d = v.manifest.dependencies[i as int];
                let deps = self.manifest.dependencies();
                assert(deps_view_at(deps@, i as int) == d);
                let same = heads_equal(&deps[i].1.heads, &f.heads);
                let mut kept = prune(&f.commits, &f.reach);
                if !same {
                    let name = deps[i].0.clone();
                    self.manifest.set_heads(i, f.heads);
                    self.changed.push(name);
                    assert(strs(self.changed@) =~= v.changed.push(d.0));
                }
                self.gathered.append(&mut kept);
                assert(strs(self.gathered@) =~= v.gathered + pruned(f@.commits, f@.reach));
                self.next = next + 1;
                assert(self@.targets == v.targets);
            },
        }
    }

    /// Ends the sync: an error where a fetch failed, else the new manifest,
    /// the changed names, and the commits to retain: those of every synced
    /// dependency where something changed, none where nothing did.
    pub fn finish(self) -> (r: Result<SyncOutcome, LedgerError>)
        requires
            self.wf(),
            self@.failed || self@.next == self@.targets.len(),
        ensures
            r is Err <==> self@.failed,
            r matches Err(e) ==> e == LedgerError::NetworkFetch,
            r matches Ok(o) ==> {
                &&& o.manifest.wf()
                &&& o.manifest@ == self@.manifest
                &&& strs(o.changed@) == self@.changed
                &&& strs(o.extra_parents@) == retained(self@)
            },
    {
        if self.failed {
            Err(LedgerError::NetworkFetch)
        } else {
            let extra_parents = if self.changed.len() == 0 {
                Vec::new()
            } else {
                self.gathered
            };
            let r = SyncOutcome { manifest: self.manifest, changed: self.changed, extra_parents };
            assert(strs(r.extra_parents@) =~= retained(self@));
            Ok(r)
        }
    }
}


/// The session after feeding it the outcomes in turn, as far as it takes
/// them: it stops at its first failure or when no dependency is left.
pub open spec fn run(v: SyncView, outs: Seq<Option<FetchedView>>) -> SyncView
    decreases outs.len(),
{
    if outs.len() == 0 || v.failed || v.next >= v.targets.len() {
        v
    } else {
        run(after_record(v, outs[0]), outs.drop_first())
    }
}

/// Recording an outcome keeps the session well formed and moves it on by one
/// dependency, or marks it failed.
pub proof fn lemma_after_record_wf(v: SyncView, outcome: Option<FetchedView>)
    requires
        sync_wf(v),
        !v.failed,
        v.next < v.targets.len(),
    ensures
        sync_wf(after_record(v, outcome)),
        after_record(v, outcome).targets == v.targets,
        after_record(v, outcome).failed == outcome is None,
        outcome is Some ==> after_record(v, outcome).next == v.next + 1,
        after_record(v, outcome).manifest.dependencies.len() == v.manifest.dependencies.len(),
        forall|i: int|
            0 <= i < v.manifest.dependencies.len() ==> (#[trigger] after_record(
                v,
                outcome,
            ).manifest.dependencies[i]).0 == v.manifest.dependencies[i].0,
{
    let w = after_record(v, outcome);
    assert forall|a: int, b: int| 0 <= a < b < w.manifest.dependencies.len() implies name_less(
        #[trigger] w.manifest.dependencies[a].0,
        #[trigger] w.manifest.dependencies[b].0,
    ) by {
        assert(w.manifest.dependencies[a].0 == v.manifest.dependencies[a].0);
        assert(w.manifest.dependencies[b].0 == v.manifest.dependencies[b].0);
    }
}

/// After a dependency is synced, its recorded references agree with what the
/// fetch brought; fetching the same again therefore finds no change.
pub proof fn lemma_recorded_heads_agree(v: SyncView, f: FetchedView)
    requires
        sync_wf(v),
        !v.failed,
        v.next < v.targets.len(),
    ensures
        same_heads(
            after_record(v, Some(f)).manifest.dependencies[v.targets[v.next]].1.heads,
            f.heads,
        ),
{
}

/// A sync whose every fetch brings references that agree with those already
/// recorded changes nothing: the manifest stays as it was and no dependency
/// is reported as changed, so no commit is to be retained.
pub proof fn lemma_unchanged_fetches_change_nothing(v: SyncView, outs: Seq<Option<FetchedView>>)
    requires
        sync_wf(v),
        !v.failed,
        forall|j: int|
            0 <= j < outs.len() && v.next + j < v.targets.len() ==> (#[trigger] outs[j] matches Some(
                f,
            ) && same_heads(v.manifest.dependencies[v.targets[v.next + j]].1.heads, f.heads)),
    ensures
        run(v, outs).manifest == v.manifest,
        run(v, outs).changed == v.changed,
        !run(v, outs).failed,
    decreases outs.len(),
{
    if outs.len() > 0 && v.next < v.targets.len() {
        assert(outs[0] is Some);
        let w = after_record(v, outs[0]);
        lemma_after_record_wf(v, outs[0]);
        let rest = outs.drop_first();
        assert forall|j: int|
            0 <= j < rest.len() && w.next + j < w.targets.len() implies (#[trigger] rest[j] matches Some(
                f,
            ) && same_heads(w.manifest.dependencies[w.targets[w.next + j]].1.heads, f.heads)) by {
            assert(rest[j] == outs[j + 1]);
            assert(w.next + j == v.next + (j + 1));
        }
        lemma_unchanged_fetches_change_nothing(w, rest);
    }
}

/// Once a fetch fails, the session is failed: it asks for no further fetch
/// and finishes with an error, so no ledger commit is made and the ledger
/// tip stays where it was, whatever the earlier fetches brought.
pub proof fn lemma_fetch_failure_aborts(v: SyncView, outs: Seq<Option<FetchedView>>, k: int)
    requires
        sync_wf(v),
        !v.failed,
        0 <= k < outs.len(),
        v.next + k < v.targets.len(),
        outs[k] is None,
        forall|j: int| 0 <= j < k ==> #[trigger] outs[j] is Some,
    ensures
        run(v, outs).failed,
    decreases k,
{
    lemma_after_record_wf(v, outs[0]);
    let w = after_record(v, outs[0]);
    let rest = outs.drop_first();
    if k > 0 {
        assert(outs[0] is Some);
        assert(rest[k - 1] == outs[k]);
        assert forall|j: int| 0 <= j < k - 1 implies #[trigger] rest[j] is Some by {
            assert(rest[j] == outs[j + 1]);
        }
        lemma_fetch_failure_aborts(w, rest, k - 1);
    } else {
        assert(w.failed);
        assert(run(w, rest) == w);
    }
}


/// The targets are ascending indices below `n`.
proof fn lemma_targets_ascending(
    deps: Seq<(Seq<char>, DependencyView)>,
    names: Seq<Seq<char>>,
    n: int,
)
    requires
        0 <= n <= deps.len(),
    ensures
        forall|q: int|
            0 <= q < targets_of(deps, names, n).len() ==> 0 <= #[trigger] targets_of(
                deps,
                names,
                n,
            )[q] < n,
        forall|a: int, b: int|
            0 <= a < b < targets_of(deps, names, n).len() ==> #[trigger] targets_of(
                deps,
                names,
                n,
            )[a] < #[trigger] targets_of(deps, names, n)[b],
    decreases n,
{
    if n > 0 {
        lemma_targets_ascending(deps, names, n - 1);
        let t = targets_of(deps, names, n - 1);
        let u = targets_of(deps, names, n);
        if selected(names, deps[n - 1].0) {
            assert(u == t.push(n - 1));
            assert forall|q: int| 0 <= q < u.len() implies 0 <= #[trigger] u[q] < n by {
                if q < t.len() {
                    assert(u[q] == t[q]);
                }
            }
            assert forall|a: int, b: int| 0 <= a < b < u.len() implies #[trigger] u[a]
                < #[trigger] u[b] by {
                assert(u[a] == t[a]);
                if b < t.len() {
                    assert(u[b] == t[b]);
                }
            }
        } else {
            assert(u == t);
        }
    }
}

/// The targets depend on the dependency names alone.
proof fn lemma_targets_by_names(
    d1: Seq<(Seq<char>, DependencyView)>,
    d2: Seq<(Seq<char>, DependencyView)>,
    names: Seq<Seq<char>>,
    n: int,
)
    requires
        0 <= n <= d1.len(),
        d1.len() == d2.len(),
        forall|i: int| 0 <= i < d1.len() ==> #[trigger] d1[i].0 == d2[i].0,
    ensures
        targets_of(d1, names, n) == targets_of(d2, names, n),
    decreases n,
{
    if n > 0 {
        lemma_targets_by_names(d1, d2, names, n - 1);
    }
}

/// Feeding a successful outcome for every remaining target: the session ends
/// complete, entries of dependencies that were not targets are untouched, and
/// each target's recorded references agree with what its fetch brought.
proof fn lemma_run_complete(v: SyncView, outs: Seq<Option<FetchedView>>)
    requires
        sync_wf(v),
        !v.failed,
        forall|a: int, b: int|
            0 <= a < b < v.targets.len() ==> #[trigger] v.targets[a] < #[trigger] v.targets[b],
        outs.len() == v.targets.len() - v.next,
        forall|j: int| 0 <= j < outs.len() ==> #[trigger] outs[j] is Some,
    ensures
        !run(v, outs).failed,
        run(v, outs).targets == v.targets,
        run(v, outs).manifest.dependencies.len() == v.manifest.dependencies.len(),
        forall|i: int|
            0 <= i < v.manifest.dependencies.len() ==> (#[trigger] run(
                v,
                outs,
            ).manifest.dependencies[i]).0 == v.manifest.dependencies[i].0,
        forall|i: int|
            0 <= i < v.manifest.dependencies.len() && (forall|q: int|
                v.next <= q < v.targets.len() ==> v.targets[q] != i) ==> #[trigger] run(
                v,
                outs,
            ).manifest.dependencies[i] == v.manifest.dependencies[i],
        forall|q: int|
            v.next <= q < v.targets.len() ==> same_heads(
                run(v, outs).manifest.dependencies[#[trigger] v.targets[q]].1.heads,
                outs[q - v.next]->Some_0.heads,
            ),
    decreases outs.len(),
{
    if outs.len() > 0 {
        lemma_after_record_wf(v, outs[0]);
        let w = after_record(v, outs[0]);
        let rest = outs.drop_first();
        assert forall|j: int| 0 <= j < rest.len() implies #[trigger] rest[j] is Some by {
            assert(rest[j] == outs[j + 1]);
        }
        lemma_run_complete(w, rest);
        let r = run(w, rest);
        assert(r == run(v, outs));
        let t = v.targets[v.next];
        lemma_recorded_heads_agree(v, outs[0]->Some_0);
        assert forall|q: int| w.next <= q < w.targets.len() implies w.targets[q] != t by {
            assert(v.targets[v.next] < v.targets[q]);
        }
        assert(r.manifest.dependencies[t] == w.manifest.dependencies[t]);
        assert forall|q: int| v.next <= q < v.targets.len() implies same_heads(
            r.manifest.dependencies[#[trigger] v.targets[q]].1.heads,
            outs[q - v.next]->Some_0.heads,
        ) by {
            if q > v.next {
                assert(rest[q - w.next] == outs[q - v.next]);
            }
        }
        assert forall|i: int|
            0 <= i < v.manifest.dependencies.len() && (forall|q: int|
                v.next <= q < v.targets.len() ==> v.targets[q] != i) implies #[trigger] r.manifest.dependencies[i]
            == v.manifest.dependencies[i] by {
            assert(v.targets[v.next] != i);
        }
        assert forall|i: int|
            0 <= i < v.manifest.dependencies.len() implies (
            #[trigger] r.manifest.dependencies[i]).0 == v.manifest.dependencies[i].0 by {
            assert(w.manifest.dependencies[i].0 == v.manifest.dependencies[i].0);
        }
    }
}

/// Syncing twice with no upstream change in between: the second sync, whose
/// fetches bring what those of the first brought, leaves the manifest as the
/// first left it, reports no dependency as changed and retains no commit, so
/// the ledger commit is skipped.
pub proof fn lemma_sync_twice_is_noop(
    m: ManifestView,
    names: Seq<Seq<char>>,
    outs: Seq<Option<FetchedView>>,
)
    requires
        sorted_keys(m.dependencies),
        outs.len() == start_view(m, names).targets.len(),
        forall|j: int| 0 <= j < outs.len() ==> #[trigger] outs[j] is Some,
    ensures
        ({
            let first = run(start_view(m, names), outs);
            let second = run(start_view(first.manifest, names), outs);
            &&& !first.failed
            &&& !second.failed
            &&& second.manifest == first.manifest
            &&& second.changed.len() == 0
            &&& retained(second).len() == 0
        }),
{
    let n = m.dependencies.len() as int;
    let v = start_view(m, names);
    lemma_targets_ascending(m.dependencies, names, n);
    lemma_run_complete(v, outs);
    let first = run(v, outs);
    lemma_targets_by_names(m.dependencies, first.manifest.dependencies, names, n);
    let v2 = start_view(first.manifest, names);
    assert(v2.targets == v.targets);
    assert forall|a: int, b: int| 0 <= a < b < first.manifest.dependencies.len() implies name_less(
        #[trigger] first.manifest.dependencies[a].0,
        #[trigger] first.manifest.dependencies[b].0,
    ) by {
        assert(first.manifest.dependencies[a].0 == m.dependencies[a].0);
        assert(first.manifest.dependencies[b].0 == m.dependencies[b].0);
    }
    assert forall|j: int|
        0 <= j < outs.len() && v2.next + j < v2.targets.len() implies (#[trigger] outs[j] matches Some(
            f,
        ) && same_heads(v2.manifest.dependencies[v2.targets[v2.next + j]].1.heads, f.heads)) by {
        assert(v.targets[j] == v2.targets[v2.next + j]);
    }
    lemma_unchanged_fetches_change_nothing(v2, outs);
}

/// The view of the dependency entry at index `i`.
spec fn deps_view_at(d: Seq<(String, crate::manifest::Dependency)>, i: int) -> (
    Seq<char>,
    DependencyView,
) {
    (d[i].0@, d[i].1@)
}

} // verus!
