use vstd::prelude::*;

use crate::error::LedgerError;
use crate::order::{
    lemma_name_less_irreflexive, lemma_name_less_total, lemma_name_less_transitive, name_less,
    name_lt,
};

verus! {

/// The value of the first entry whose key is `k`, if any.
pub open spec fn lookup<V>(s: Seq<(Seq<char>, V)>, k: Seq<char>) -> Option<V>
    decreases s.len(),
{
    if s.len() == 0 {
        None
    } else if s[0].0 == k {
        Some(s[0].1)
    } else {
        lookup(s.drop_first(), k)
    }
}

/// The keys are strictly ascending in name order, so no two entries share one.
pub open spec fn sorted_keys<V>(s: Seq<(Seq<char>, V)>) -> bool {
    forall|i: int, j: int| 0 <= i < j < s.len() ==> name_less(#[trigger] s[i].0, #[trigger] s[j].0)
}

/// A lookup finds the first entry with the key.
pub proof fn lemma_lookup_first<V>(s: Seq<(Seq<char>, V)>, k: Seq<char>, i: int)
    requires
        0 <= i < s.len(),
        s[i].0 == k,
        forall|j: int| 0 <= j < i ==> s[j].0 != k,
    ensures
        lookup(s, k) == Some(s[i].1),
    decreases i,
{
    if i > 0 {
        let t = s.drop_first();
        assert forall|j: int| 0 <= j < i - 1 implies t[j].0 != k by {
            assert(t[j] == s[j + 1]);
        }
        lemma_lookup_first(t, k, i - 1);
    }
}

/// A lookup of a key that no entry has finds nothing.
pub proof fn lemma_lookup_none<V>(s: Seq<(Seq<char>, V)>, k: Seq<char>)
    requires
        forall|j: int| 0 <= j < s.len() ==> s[j].0 != k,
    ensures
        lookup(s, k) is None,
    decreases s.len(),
{
    if s.len() > 0 {
        let t = s.drop_first();
        assert forall|j: int| 0 <= j < t.len() implies t[j].0 != k by {
            assert(t[j] == s[j + 1]);
        }
        lemma_lookup_none(t, k);
    }
}

/// Index of the first entry whose key is `key`.
pub fn find_key<T>(entries: &Vec<(String, T)>, key: &String) -> (r: Option<usize>)
    ensures
        match r {
            Some(i) => {
                &&& i < entries@.len()
                &&& entries@[i as int].0@ == key@
                &&& forall|j: int| 0 <= j < i ==> entries@[j].0@ != key@
            },
            None => forall|j: int| 0 <= j < entries@.len() ==> entries@[j].0@ != key@,
        },
{
    let mut i: usize = 0;
    while i < entries.len()
        invariant
            i <= entries@.len(),
            forall|j: int| 0 <= j < i ==> entries@[j].0@ != key@,
        decreases entries@.len() - i,
    {
        if entries[i].0 == *key {
            return Some(i);
        }
        i += 1;
    }
    None
}

/// One advertised reference of a dependency: the commit it points at.
#[derive(Debug, PartialEq, Eq)]
pub struct Head {
    pub commit: String,
}

/// A vendored dependency: where it is fetched from, and the references that
/// its remote advertised at the last successful sync.
#[derive(Debug, PartialEq, Eq)]
pub struct Dependency {
    pub url: String,
    pub heads: Vec<(String, Head)>,
}

/// A dependency as plain values.
pub struct DependencyView {
    pub url: Seq<char>,
    pub heads: Seq<(Seq<char>, Seq<char>)>,
}

/// Recorded references as (name, commit) pairs.
pub open spec fn heads_view(h: Seq<(String, Head)>) -> Seq<(Seq<char>, Seq<char>)> {
    h.map_values(|e: (String, Head)| (e.0@, e.1.commit@))
}

impl View for Dependency {
    type V = DependencyView;

    open spec fn view(&self) -> DependencyView {
        DependencyView { url: self.url@, heads: heads_view(self.heads@) }
    }
}

/// The document recorded by each ledger commit: a format marker and the
/// dependencies by name.
#[derive(Debug, PartialEq, Eq)]
pub struct Manifest {
    version: String,
    dependencies: Vec<(String, Dependency)>,
}

/// A manifest as plain values: the format marker and the dependencies by
/// name, in stored order.
pub struct ManifestView {
    pub version: Seq<char>,
    pub dependencies: Seq<(Seq<char>, DependencyView)>,
}

/// Dependencies as (name, dependency) pairs.
pub open spec fn deps_view(d: Seq<(String, Dependency)>) -> Seq<(Seq<char>, DependencyView)> {
    d.map_values(|e: (String, Dependency)| (e.0@, e.1@))
}

impl View for Manifest {
    type V = ManifestView;

    closed spec fn view(&self) -> ManifestView {
        ManifestView { version: self.version@, dependencies: deps_view(self.dependencies@) }
    }
}

/// The format marker that new manifests carry.
pub open spec fn current_version() -> Seq<char> {
    "1.1"@
}

impl Manifest {
    /// Dependency names are unique and kept in name order.
    pub open spec fn wf(&self) -> bool {
        sorted_keys(self@.dependencies)
    }

    /// Builds a manifest from decoded parts; names that are repeated or out
    /// of name order make it malformed.
    pub fn from_parts(version: String, dependencies: Vec<(String, Dependency)>) -> (r: Result<
        Manifest,
        LedgerError,
    >)
        ensures
            r is Ok <==> sorted_keys(deps_view(dependencies@)),
            r matches Ok(m) ==> m.wf() && m@ == (ManifestView {
                version: version@,
                dependencies: deps_view(dependencies@),
            }),
            r matches Err(e) ==> e == LedgerError::ManifestParse,
    {
        let ghost dv = deps_view(dependencies@);
        let mut i: usize = 1;
        while i < dependencies.len()
            invariant
                1 <= i,
                dv == deps_view(dependencies@),
                i <= dependencies@.len() || dependencies@.len() == 0,
                forall|a: int, b: int|
                    0 <= a < b < i && b < dv.len() ==> name_less(#[trigger] dv[a].0, #[trigger] dv[b].0),
            decreases dependencies@.len() - i,
        {
            let ordered = name_lt(&dependencies[i - 1].0, &dependencies[i].0);
            assert(dv[i - 1].0 == dependencies@[i - 1].0@ && dv[i as int].0 == dependencies@[i as int].0@);
            if !ordered {
                return Err(LedgerError::ManifestParse);
            }
            proof {
                assert forall|a: int, b: int|
                    0 <= a < b < i + 1 && b < dv.len() implies name_less(#[trigger] dv[a].0, #[trigger] dv[b].0) by {
                    if b == i && a < i - 1 {
                        lemma_name_less_transitive(dv[a].0, dv[i - 1].0, dv[b].0);
                    }
                }
            }
            i += 1;
        }
        let m = Manifest { version, dependencies };
        assert(m@.dependencies == dv);
        Ok(m)
    }

    /// The format marker.
    pub fn version(&self) -> (r: &String)
        ensures
            r@ == self@.version,
    {
        &self.version
    }

    /// The dependencies, in stored order.
    pub fn dependencies(&self) -> (r: &Vec<(String, Dependency)>)
        ensures
            deps_view(r@) == self@.dependencies,
    {
        &self.dependencies
    }

    /// Hands back the format marker and the dependencies.
    pub fn into_parts(self) -> (r: (String, Vec<(String, Dependency)>))
        ensures
            r.0@ == self@.version,
            deps_view(r.1@) == self@.dependencies,
    {
        (self.version, self.dependencies)
    }

    /// The dependency recorded under `name`.
    pub fn get(&self, name: &String) -> (r: Option<&Dependency>)
        ensures
            r is None <==> lookup(self@.dependencies, name@) is None,
            r matches Some(d) ==> lookup(self@.dependencies, name@) == Some(d@),
    {
        proof {
            self.lemma_view_index();
        }
        match find_key(&self.dependencies, name) {
            Some(i) => {
                proof {
                    lemma_lookup_first(self@.dependencies, name@, i as int);
                }
                Some(&self.dependencies[i].1)
            },
            None => {
                proof {
                    lemma_lookup_none(self@.dependencies, name@);
                }
                None
            },
        }
    }

    proof fn lemma_view_index(&self)
        ensures
            self@.dependencies.len() == self.dependencies@.len(),
            forall|i: int|
                0 <= i < self.dependencies@.len() ==> #[trigger] self@.dependencies[i] == (
                self.dependencies@[i].0@,
                self.dependencies@[i].1@,
            ),
    {
    }
}


impl Clone for Head {
    fn clone(&self) -> (r: Head)
        ensures
            r.commit@ == self.commit@,
    {
        Head { commit: self.commit.clone() }
    }
}

/// A copy of recorded references.
fn clone_heads(heads: &Vec<(String, Head)>) -> (r: Vec<(String, Head)>)
    ensures
        heads_view(r@) == heads_view(heads@),
{
    let mut r: Vec<(String, Head)> = Vec::new();
    let mut i: usize = 0;
    while i < heads.len()
        invariant
            i <= heads@.len(),
            heads_view(r@) == heads_view(heads@).take(i as int),
        decreases heads@.len() - i,
    {
        let ghost before = r@;
        r.push((heads[i].0.clone(), heads[i].1.clone()));
        assert(heads_view(r@) =~= heads_view(before).push(heads_view(heads@)[i as int]));
        assert(heads_view(heads@).take(i + 1) =~= heads_view(heads@).take(i as int).push(
            heads_view(heads@)[i as int],
        ));
        i += 1;
    }
    assert(heads_view(heads@).take(heads@.len() as int) =~= heads_view(heads@));
    r
}

impl Clone for Dependency {
    fn clone(&self) -> (r: Dependency)
        ensures
            r@ == self@,
    {
        Dependency { url: self.url.clone(), heads: clone_heads(&self.heads) }
    }
}

impl Clone for Manifest {
    fn clone(&self) -> (r: Manifest)
        ensures
            r@ == self@,
    {
        let mut deps: Vec<(String, Dependency)> = Vec::new();
        let ghost dv = deps_view(self.dependencies@);
        let mut i: usize = 0;
        while i < self.dependencies.len()
            invariant
                i <= self.dependencies@.len(),
                dv == deps_view(self.dependencies@),
                deps_view(deps@) == dv.take(i as int),
            decreases self.dependencies@.len() - i,
        {
            let ghost before = deps@;
            deps.push((self.dependencies[i].0.clone(), self.dependencies[i].1.clone()));
            assert(deps_view(deps@) =~= deps_view(before).push(dv[i as int]));
            assert(dv.take(i + 1) =~= dv.take(i as int).push(dv[i as int]));
            i += 1;
        }
        assert(dv.take(dv.len() as int) =~= dv);
        Manifest { version: self.version.clone(), dependencies: deps }
    }
}

impl Default for Manifest {
    /// An empty manifest with the current format marker.
    fn default() -> (r: Manifest)
        ensures
            r.wf(),
            r@.version == current_version(),
            r@.dependencies.len() == 0,
    {
        let m = Manifest { version: String::from_str("1.1"), dependencies: Vec::new() };
        assert(m@.dependencies.len() == 0);
        m
    }
}

impl Manifest {
    /// Whether a dependency is recorded under `name`.
    pub fn contains(&self, name: &String) -> (r: bool)
        ensures
            r == (lookup(self@.dependencies, name@) is Some),
    {
        self.get(name).is_some()
    }

    /// Records a new dependency; a name that is already recorded is refused
    /// and leaves the manifest as it was.
    pub fn add_dependency(&mut self, name: String, url: String, heads: Vec<(String, Head)>) -> (r:
        Result<(), LedgerError>)
        requires
            old(self).wf(),
        ensures
            final(self).wf(),
            r is Err <==> lookup(old(self)@.dependencies, name@) is Some,
            r matches Err(e) ==> e == LedgerError::DuplicateDependency && final(self)@ == old(self)@,
            r is Ok ==> final(self)@.version == old(self)@.version && exists|p: int|
                0 <= p <= old(self)@.dependencies.len() && final(self)@.dependencies
                    == old(self)@.dependencies.insert(
                    p,
                    (name@, DependencyView { url: url@, heads: heads_view(heads@) }),
                ),
    {
        proof {
            self.lemma_view_index();
        }
        let ghost d = self@.dependencies;
        let n = self.dependencies.len();
        let mut i: usize = 0;
        while i < n && name_lt(&self.dependencies[i].0, &name)
            invariant
                n == d.len(),
                d == self@.dependencies,
                d.len() == self.dependencies@.len(),
                forall|j: int| 0 <= j < d.len() ==> #[trigger] d[j].0 == self.dependencies@[j].0@,
                i <= n,
                forall|j: int| 0 <= j < i ==> name_less(#[trigger] d[j].0, name@),
            decreases n - i,
        {
            i += 1;
        }
        if i < n && self.dependencies[i].0 == name {
            proof {
                assert forall|j: int| 0 <= j < i implies d[j].0 != name@ by {
                    lemma_name_less_irreflexive(name@);
                }
                lemma_lookup_first(d, name@, i as int);
            }
            return Err(LedgerError::DuplicateDependency);
        }
        proof {
            assert forall|j: int| i <= j < d.len() implies name_less(name@, #[trigger] d[j].0) by {
                lemma_name_less_total(d[i as int].0, name@);
                if j > i {
                    lemma_name_less_transitive(name@, d[i as int].0, d[j].0);
                }
            }
            assert forall|j: int| 0 <= j < d.len() implies d[j].0 != name@ by {
                lemma_name_less_irreflexive(name@);
            }
            lemma_lookup_none(d, name@);
        }
        let entry = (name, Dependency { url, heads });
        let ghost ev = (entry.0@, entry.1@);
        self.dependencies.insert(i, entry);
        proof {
            self.lemma_view_index();
            assert(self@.dependencies =~= d.insert(i as int, ev));
            let e = self@.dependencies;
            assert forall|a: int, b: int| 0 <= a < b < e.len() implies name_less(
                #[trigger] e[a].0,
                #[trigger] e[b].0,
            ) by {
                if b < i {
                } else if a < i && b == i {
                } else if a < i {
                    assert(e[b] == d[b - 1]);
                } else if a == i {
                    assert(e[b] == d[b - 1]);
                } else {
                    assert(e[a] == d[a - 1] && e[b] == d[b - 1]);
                }
            }
        }
        Ok(())
    }

    /// Each dependency's name and source location, in stored order.
    pub fn list_dependencies(&self) -> (r: Vec<(String, String)>)
        ensures
            r@.len() == self@.dependencies.len(),
            forall|i: int|
                0 <= i < r@.len() ==> #[trigger] r@[i].0@ == self@.dependencies[i].0
                    && r@[i].1@ == self@.dependencies[i].1.url,
    {
        proof {
            self.lemma_view_index();
        }
        let mut r: Vec<(String, String)> = Vec::new();
        let mut i: usize = 0;
        while i < self.dependencies.len()
            invariant
                i <= self.dependencies@.len(),
                r@.len() == i,
                self@.dependencies.len() == self.dependencies@.len(),
                forall|j: int|
                    0 <= j < i ==> #[trigger] r@[j].0@ == self@.dependencies[j].0
                        && r@[j].1@ == self@.dependencies[j].1.url,
            decreases self.dependencies@.len() - i,
        {
            let entry = &self.dependencies[i];
            r.push((entry.0.clone(), entry.1.url.clone()));
            assert(self@.dependencies[i as int] == (entry.0@, entry.1@));
            i += 1;
        }
        r
    }

    /// The reference names recorded for dependency `name`, in stored order.
    pub fn list_references(&self, name: &String) -> (r: Result<Vec<String>, LedgerError>)
        ensures
            r is Err <==> lookup(self@.dependencies, name@) is None,
            r matches Err(e) ==> e == LedgerError::DependencyNotFound,
            r matches Ok(v) ==> lookup(self@.dependencies, name@) matches Some(d) && v@.len()
                == d.heads.len() && forall|i: int|
                0 <= i < v@.len() ==> #[trigger] v@[i]@ == d.heads[i].0,
    {
        match self.get(name) {
            None => Err(LedgerError::DependencyNotFound),
            Some(dep) => {
                let mut v: Vec<String> = Vec::new();
                let mut i: usize = 0;
                while i < dep.heads.len()
                    invariant
                        i <= dep.heads@.len(),
                        v@.len() == i,
                        forall|j: int| 0 <= j < i ==> #[trigger] v@[j]@ == dep@.heads[j].0,
                    decreases dep.heads@.len() - i,
                {
                    v.push(dep.heads[i].0.clone());
                    i += 1;
                }
                Ok(v)
            },
        }
    }

    /// Replaces the recorded references of the dependency at index `i`.
    pub(crate) fn set_heads(&mut self, i: usize, heads: Vec<(String, Head)>)
        requires
            old(self).wf(),
            i < old(self)@.dependencies.len(),
        ensures
            final(self).wf(),
            final(self)@ == (ManifestView {
                version: old(self)@.version,
                dependencies: old(self)@.dependencies.update(
                    i as int,
                    (
                        old(self)@.dependencies[i as int].0,
                        DependencyView {
                            url: old(self)@.dependencies[i as int].1.url,
                            heads: heads_view(heads@),
                        },
                    ),
                ),
            }),
    {
        proof {
            self.lemma_view_index();
        }
        let ghost before = self@.dependencies;
        let ghost hv = heads_view(heads@);
        self.dependencies[i].1.heads = heads;
        proof {
            self.lemma_view_index();
            assert(self@.dependencies =~= before.update(
                i as int,
                (before[i as int].0, DependencyView { url: before[i as int].1.url, heads: hv }),
            ));
            assert forall|a: int, b: int| 0 <= a < b < self@.dependencies.len() implies name_less(
                #[trigger] self@.dependencies[a].0,
                #[trigger] self@.dependencies[b].0,
            ) by {
                assert(self@.dependencies[a].0 == before[a].0);
                assert(self@.dependencies[b].0 == before[b].0);
            }
        }
    }
}

} // verus!
