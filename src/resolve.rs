use vstd::prelude::*;

use crate::error::LedgerError;
use crate::manifest::{
    find_key, heads_view, lemma_lookup_first, lemma_lookup_none, lookup, Dependency, Head,
    Manifest,
};

verus! {

/// The recorded commit that a short reference name stands for. Tried in turn,
/// the first that is recorded wins: the name itself, the branch of that name,
/// the peeled tag of that name, the tag of that name.
pub open spec fn resolved(heads: Seq<(Seq<char>, Seq<char>)>, name: Seq<char>) -> Option<
    Seq<char>,
> {
    if lookup(heads, name) is Some {
        lookup(heads, name)
    } else if lookup(heads, "refs/heads/"@ + name) is Some {
        lookup(heads, "refs/heads/"@ + name)
    } else if lookup(heads, "refs/tags/"@ + name + "^{}"@) is Some {
        lookup(heads, "refs/tags/"@ + name + "^{}"@)
    } else {
        lookup(heads, "refs/tags/"@ + name)
    }
}

/// The commit recorded under the exact reference name `key`.
pub fn lookup_head(heads: &Vec<(String, Head)>, key: &String) -> (r: Option<String>)
    ensures
        r is None <==> lookup(heads_view(heads@), key@) is None,
        r matches Some(c) ==> lookup(heads_view(heads@), key@) == Some(c@),
{
    let ghost hv = heads_view(heads@);
    match find_key(heads, key) {
        Some(i) => {
            proof {
                assert forall|j: int| 0 <= j < i implies hv[j].0 != key@ by {
                    assert(hv[j].0 == heads@[j].0@);
                }
                lemma_lookup_first(hv, key@, i as int);
            }
            Some(heads[i].1.commit.clone())
        },
        None => {
            proof {
                assert forall|j: int| 0 <= j < hv.len() implies hv[j].0 != key@ by {
                    assert(hv[j].0 == heads@[j].0@);
                }
                lemma_lookup_none(hv, key@);
            }
            None
        },
    }
}

impl Dependency {
    /// Resolves a short or full reference name to the recorded commit.
    pub fn resolve(&self, name: &String) -> (r: Option<String>)
        ensures
            r is None <==> resolved(self@.heads, name@) is None,
            r matches Some(c) ==> resolved(self@.heads, name@) == Some(c@),
    {
        let exact = lookup_head(&self.heads, name);
        if exact.is_some() {
            return exact;
        }
        let mut branch = String::from_str("refs/heads/");
        branch.append(name.as_str());
        let by_branch = lookup_head(&self.heads, &branch);
        if by_branch.is_some() {
            return by_branch;
        }
        let mut peeled = String::from_str("refs/tags/");
        peeled.append(name.as_str());
        peeled.append("^{}");
        let by_peeled = lookup_head(&self.heads, &peeled);
        if by_peeled.is_some() {
            return by_peeled;
        }
        let mut tag = String::from_str("refs/tags/");
        tag.append(name.as_str());
        lookup_head(&self.heads, &tag)
    }
}

impl Manifest {
    /// Resolves `reference` within the dependency recorded under `name`.
    pub fn resolve_reference(&self, name: &String, reference: &String) -> (r: Result<
        String,
        LedgerError,
    >)
        ensures
            r matches Err(e) ==> e == LedgerError::DependencyNotFound || e
                == LedgerError::ReferenceNotFound,
            r == Err::<String, LedgerError>(LedgerError::DependencyNotFound) <==> lookup(
                self@.dependencies,
                name@,
            ) is None,
            r == Err::<String, LedgerError>(LedgerError::ReferenceNotFound) <==> (lookup(
                self@.dependencies,
                name@,
            ) matches Some(d) && resolved(d.heads, reference@) is None),
            r matches Ok(c) ==> lookup(self@.dependencies, name@) matches Some(d) && resolved(
                d.heads,
                reference@,
            ) == Some(c@),
    {
        match self.get(name) {
            None => Err(LedgerError::DependencyNotFound),
            Some(dep) => match dep.resolve(reference) {
                None => Err(LedgerError::ReferenceNotFound),
                Some(c) => Ok(c),
            },
        }
    }
}

} // verus!
