use vstd::prelude::*;

use crate::error::LedgerError;
use crate::manifest::{current_version, Manifest};
use crate::prune::strs;

verus! {

/// Name of the ledger branch.
pub const LEDGER_BRANCH: &'static str = "paravendor";

/// Name of the tree entry that holds the encoded manifest.
pub const MANIFEST_ENTRY: &'static str = "config";

/// Message of the ledger's root commit.
pub const ROOT_MESSAGE: &'static str = "Initialize paravendor";

/// Whether two byte strings are equal.
pub fn bytes_equal(a: &Vec<u8>, b: &Vec<u8>) -> (r: bool)
    ensures
        r == (a@ == b@),
{
    if a.len() != b.len() {
        return false;
    }
    let mut i: usize = 0;
    while i < a.len()
        invariant
            a@.len() == b@.len(),
            i <= a@.len(),
            forall|j: int| 0 <= j < i ==> a@[j] == b@[j],
        decreases a@.len() - i,
    {
        if a[i] != b[i] {
            return false;
        }
        i += 1;
    }
    assert(a@ =~= b@);
    true
}

/// The parents of the next ledger commit: the current tip first, then the
/// retained dependency commits in the order given. `None` when the encoded
/// manifest is unchanged and nothing is to be retained: the ledger is then
/// left as it is.
pub fn splice_parents(
    tip: &String,
    old_manifest: &Vec<u8>,
    new_manifest: &Vec<u8>,
    extra_parents: &Vec<String>,
) -> (r: Option<Vec<String>>)
    ensures
        r is None <==> (old_manifest@ == new_manifest@ && extra_parents@.len() == 0),
        r matches Some(p) ==> strs(p@) == seq![tip@] + strs(extra_parents@),
{
    if extra_parents.len() == 0 && bytes_equal(old_manifest, new_manifest) {
        return None;
    }
    let mut parents: Vec<String> = Vec::new();
    parents.push(tip.clone());
    let mut i: usize = 0;
    while i < extra_parents.len()
        invariant
            i <= extra_parents@.len(),
            strs(parents@) == seq![tip@] + strs(extra_parents@).take(i as int),
        decreases extra_parents@.len() - i,
    {
        let ghost before = parents@;
        parents.push(extra_parents[i].clone());
        assert(strs(parents@) =~= strs(before).push(extra_parents@[i as int]@));
        assert(strs(extra_parents@).take(i + 1) =~= strs(extra_parents@).take(i as int).push(
            extra_parents@[i as int]@,
        ));
        i += 1;
    }
    assert(strs(extra_parents@).take(extra_parents@.len() as int) =~= strs(extra_parents@));
    Some(parents)
}

/// The names, separated by a comma and a space.
pub open spec fn joined(s: Seq<Seq<char>>) -> Seq<char>
    decreases s.len(),
{
    if s.len() == 0 {
        Seq::empty()
    } else if s.len() == 1 {
        s[0]
    } else {
        joined(s.drop_last()) + ", "@ + s.last()
    }
}

/// Message of the ledger commit that adds a dependency.
pub fn add_message(name: &String, url: &String) -> (r: String)
    ensures
        r@ == "Add "@ + name@ + " from "@ + url@,
{
    let mut m = String::from_str("Add ");
    m.append(name.as_str());
    m.append(" from ");
    m.append(url.as_str());
    m
}

/// Message of the ledger commit of a sync that changed `changed`.
pub fn sync_message(changed: &Vec<String>) -> (r: String)
    ensures
        r@ == "Sync: "@ + joined(strs(changed@)),
{
    let ghost c = strs(changed@);
    let mut m = String::from_str("Sync: ");
    let mut i: usize = 0;
    while i < changed.len()
        invariant
            c == strs(changed@),
            i <= c.len(),
            m@ == "Sync: "@ + joined(c.take(i as int)),
        decreases c.len() - i,
    {
        if i > 0 {
            m.append(", ");
        }
        m.append(changed[i].as_str());
        assert(c.take(i + 1).drop_last() =~= c.take(i as int));
        assert(c.take(i + 1).last() == changed@[i as int]@);
        proof {
            if i == 0 {
                assert(c.take(0) =~= Seq::<Seq<char>>::empty());
                assert(c.take(1).len() == 1);
            }
        }
        i += 1;
    }
    assert(c.take(c.len() as int) =~= c);
    m
}

/// Index of the first line feed at or after `i`, or the length.
pub open spec fn first_break(s: Seq<char>, i: int) -> int
    decreases s.len() - i,
{
    if i >= s.len() {
        s.len() as int
    } else if s[i] == '\n' {
        i
    } else {
        first_break(s, i + 1)
    }
}

/// The first line of a message: what precedes the first line feed, less a
/// carriage return right before that line feed.
pub open spec fn first_line_of(s: Seq<char>) -> Seq<char> {
    let k = first_break(s, 0);
    if k < s.len() && k > 0 && s[k - 1] == '\r' {
        s.take(k - 1)
    } else {
        s.take(k)
    }
}

/// The first line of a ledger commit's message, as history shows it.
pub fn first_line(message: &str) -> (r: String)
    ensures
        r@ == first_line_of(message@),
{
    let n = message.unicode_len();
    let mut i: usize = 0;
    while i < n && message.get_char(i) != '\n'
        invariant
            n == message@.len(),
            i <= n,
            first_break(message@, 0) == first_break(message@, i as int),
        decreases n - i,
    {
        i += 1;
    }
    let mut end = i;
    if i < n && i > 0 && message.get_char(i - 1) == '\r' {
        end = i - 1;
    }
    String::from_str(message.substring_char(0, end))
}

/// How the ledger comes into being.
pub enum Bootstrap {
    /// Point the new local ledger branch at this commit of a remote copy.
    Adopt(String),
    /// Create a root commit that records this manifest.
    CreateRoot(Manifest),
}

/// Decides how to establish the ledger: refused where a local ledger exists;
/// else the remote copy's tip is adopted unless remotes are to be ignored;
/// else a fresh root with an empty manifest.
pub fn plan_bootstrap(local_exists: bool, ignore_remote: bool, remote_tip: Option<String>) -> (r:
    Result<Bootstrap, LedgerError>)
    ensures
        r is Err <==> local_exists,
        r matches Err(e) ==> e == LedgerError::AlreadyInitialized,
        r matches Ok(Bootstrap::Adopt(t)) ==> !ignore_remote && remote_tip == Some(t),
        r matches Ok(Bootstrap::CreateRoot(m)) ==> (ignore_remote || remote_tip is None) && m.wf()
            && m@.version == current_version() && m@.dependencies.len() == 0,
{
    if local_exists {
        return Err(LedgerError::AlreadyInitialized);
    }
    if !ignore_remote {
        if let Some(t) = remote_tip {
            return Ok(Bootstrap::Adopt(t));
        }
    }
    Ok(Bootstrap::CreateRoot(Manifest::default()))
}

/// The remote to look for a copy of the ledger on: the one that the checked
/// out branch tracks, else the first configured one.
pub fn pick_remote(upstream: Option<String>, remotes: &Vec<String>) -> (r: Option<String>)
    ensures
        upstream is Some ==> r == upstream,
        upstream is None && remotes@.len() > 0 ==> r == Some(remotes@[0]),
        upstream is None && remotes@.len() == 0 ==> r is None,
{
    match upstream {
        Some(u) => Some(u),
        None => {
            if remotes.len() > 0 {
                Some(remotes[0].clone())
            } else {
                None
            }
        },
    }
}

/// The remote-tracking name of the ledger branch on `remote`.
pub fn remote_ledger_branch(remote: &String) -> (r: String)
    ensures
        r@ == remote@ + "/"@ + LEDGER_BRANCH@,
{
    let mut b = remote.clone();
    b.append("/");
    b.append(LEDGER_BRANCH);
    b
}

/// The ledger tip to work from: the local branch, else a remote copy that is
/// then adopted (the flag says so); with neither, the ledger is not
/// initialized.
pub fn locate_ledger(local_tip: Option<String>, remote_tip: Option<String>) -> (r: Result<
    (String, bool),
    LedgerError,
>)
    ensures
        r is Err <==> local_tip is None && remote_tip is None,
        r matches Err(e) ==> e == LedgerError::NotInitialized,
        r matches Ok(p) ==> match local_tip {
            Some(t) => p.0 == t && !p.1,
            None => remote_tip == Some(p.0) && p.1,
        },
{
    match local_tip {
        Some(t) => Ok((t, false)),
        None => match remote_tip {
            Some(t) => Ok((t, true)),
            None => Err(LedgerError::NotInitialized),
        },
    }
}

} // verus!
