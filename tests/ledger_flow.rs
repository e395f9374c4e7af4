use paravendor::error::LedgerError;
use paravendor::ledger::{
    add_message, first_line, locate_ledger, plan_bootstrap, splice_parents, sync_message, Bootstrap,
};
use paravendor::manifest::{Head, Manifest};
use paravendor::prune::prune;
use paravendor::sync::{Fetched, SyncOutcome, SyncSession};

const DEP_COMMIT: &str = "1111111111111111111111111111111111111111";
const DEP_UPDATE: &str = "2222222222222222222222222222222222222222";
const INIT_COMMIT: &str = "aaaaaaaaaaaaaaaaaaaaaaaaaaaaaaaaaaaaaaaa";
const ADD_COMMIT: &str = "bbbbbbbbbbbbbbbbbbbbbbbbbbbbbbbbbbbbbbbb";

fn heads_at(commit: &str) -> Vec<(String, Head)> {
    vec![
        ("HEAD".to_string(), Head { commit: commit.to_string() }),
        ("refs/heads/master".to_string(), Head { commit: commit.to_string() }),
    ]
}

/// Stands in for the codec: any injective rendering of the manifest will do.
fn encoded(m: &Manifest) -> Vec<u8> {
    format!("{:?}", m).into_bytes()
}

fn fetched_at(commit: &str) -> Fetched {
    Fetched {
        heads: heads_at(commit),
        commits: vec![commit.to_string(), commit.to_string()],
        reach: vec![vec![true, true], vec![true, true]],
    }
}

fn init_manifest() -> Manifest {
    match plan_bootstrap(false, false, None) {
        Ok(Bootstrap::CreateRoot(m)) => m,
        _ => panic!("expected a fresh root"),
    }
}

fn run_sync(manifest: Manifest, names: &Vec<String>, outcomes: Vec<Option<Fetched>>) -> Result<SyncOutcome, LedgerError> {
    let mut session = SyncSession::start(manifest, names);
    let mut outcomes = outcomes.into_iter();
    while session.next_fetch().is_some() {
        session.record(outcomes.next().expect("an outcome for each fetch"));
    }
    session.finish()
}

fn added() -> (Manifest, Vec<String>) {
    let mut m = init_manifest();
    let kept = prune(&vec![DEP_COMMIT.to_string(), DEP_COMMIT.to_string()], &vec![vec![true, true], vec![true, true]]);
    let old = encoded(&m);
    m.add_dependency("dep".to_string(), "/tmp/dep".to_string(), heads_at(DEP_COMMIT)).unwrap();
    let parents = splice_parents(&INIT_COMMIT.to_string(), &old, &encoded(&m), &kept).unwrap();
    (m, parents)
}

#[test]
fn init_clean() {
    assert!(locate_ledger(None, None) == Err(LedgerError::NotInitialized));
    let m = init_manifest();
    assert_eq!(m.version(), "1.1");
    assert!(m.dependencies().is_empty());
}

#[test]
fn add() {
    let (m, parents) = added();
    let dep = m.get(&"dep".to_string()).unwrap();
    for head_name in ["HEAD", "refs/heads/master"] {
        let head = &dep.heads.iter().find(|h| h.0 == head_name).unwrap().1;
        assert_eq!(head.commit, DEP_COMMIT);
    }
    assert!(parents.iter().any(|p| p == DEP_COMMIT));
    assert!(parents.iter().any(|p| p == INIT_COMMIT));
    assert_eq!(parents.len(), 2);
}

#[test]
fn sync_no_changes() {
    let (m, _) = added();
    let before = encoded(&m);
    let out = run_sync(m, &vec![], vec![Some(fetched_at(DEP_COMMIT))]).unwrap();
    assert!(out.changed.is_empty());
    let parents = splice_parents(&ADD_COMMIT.to_string(), &before, &encoded(&out.manifest), &out.extra_parents);
    assert_eq!(parents, None);
}

#[test]
fn sync_singular_dependency_change() {
    for names in [vec![], vec!["dep".to_string()]] {
        let (m, _) = added();
        let before = encoded(&m);
        let update = Fetched {
            heads: heads_at(DEP_UPDATE),
            commits: vec![DEP_UPDATE.to_string(), DEP_UPDATE.to_string()],
            reach: vec![vec![true, true], vec![true, true]],
        };
        let out = run_sync(m, &names, vec![Some(update)]).unwrap();
        assert_eq!(
            DEP_UPDATE,
            out.manifest
                .resolve_reference(&"dep".to_string(), &"refs/heads/master".to_string())
                .unwrap()
        );
        assert_eq!(out.changed, vec!["dep".to_string()]);
        let parents = splice_parents(&ADD_COMMIT.to_string(), &before, &encoded(&out.manifest), &out.extra_parents).unwrap();
        assert_eq!(1, parents.iter().filter(|p| *p == ADD_COMMIT).count());
        assert_eq!(parents[0], ADD_COMMIT);
        assert_eq!(sync_message(&out.changed), "Sync: dep");
    }
}

#[test]
fn sync_twice_second_is_noop() {
    let (m, _) = added();
    let first = run_sync(m, &vec![], vec![Some(fetched_at(DEP_UPDATE))]).unwrap();
    let bytes = encoded(&first.manifest);
    let second = run_sync(first.manifest, &vec![], vec![Some(fetched_at(DEP_UPDATE))]).unwrap();
    assert!(second.changed.is_empty());
    assert!(second.extra_parents.is_empty());
    assert_eq!(splice_parents(&ADD_COMMIT.to_string(), &bytes, &encoded(&second.manifest), &second.extra_parents), None);
}

#[test]
fn sync_failure_on_second_of_three_aborts() {
    let mut m = init_manifest();
    for name in ["a", "b", "c"] {
        m.add_dependency(name.to_string(), format!("/tmp/{name}"), heads_at(DEP_COMMIT)).unwrap();
    }
    let mut session = SyncSession::start(m, &vec![]);
    assert_eq!(session.next_fetch(), Some("/tmp/a".to_string()));
    session.record(Some(fetched_at(DEP_UPDATE)));
    assert_eq!(session.next_fetch(), Some("/tmp/b".to_string()));
    session.record(None);
    assert_eq!(session.next_fetch(), None);
    assert!(matches!(session.finish(), Err(LedgerError::NetworkFetch)));
}

#[test]
fn sync_with_names_fetches_only_those() {
    let mut m = init_manifest();
    for name in ["a", "b", "c"] {
        m.add_dependency(name.to_string(), format!("/tmp/{name}"), heads_at(DEP_COMMIT)).unwrap();
    }
    let mut session = SyncSession::start(m, &vec!["c".to_string(), "zzz".to_string()]);
    assert_eq!(session.next_fetch(), Some("/tmp/c".to_string()));
    session.record(Some(fetched_at(DEP_UPDATE)));
    assert_eq!(session.next_fetch(), None);
    let out = session.finish().unwrap();
    assert_eq!(out.changed, vec!["c".to_string()]);
    assert_eq!(out.extra_parents, vec![DEP_UPDATE.to_string()]);
}

fn main_branch_at(commit: &str) -> Fetched {
    Fetched {
        heads: vec![("refs/heads/main".to_string(), Head { commit: commit.to_string() })],
        commits: vec![commit.to_string()],
        reach: vec![vec![true]],
    }
}

#[test]
fn end_to_end_lib() {
    let mut m = init_manifest();
    let url = "https://example.org/lib".to_string();
    let first = main_branch_at(DEP_COMMIT);
    let kept = prune(&first.commits, &first.reach);
    let root_bytes = encoded(&m);
    m.add_dependency("lib".to_string(), url.clone(), first.heads).unwrap();
    let parents = splice_parents(&INIT_COMMIT.to_string(), &root_bytes, &encoded(&m), &kept).unwrap();
    assert_eq!(parents, vec![INIT_COMMIT.to_string(), DEP_COMMIT.to_string()]);
    assert_eq!(m.list_dependencies(), vec![("lib".to_string(), url)]);
    assert_eq!(m.resolve_reference(&"lib".to_string(), &"main".to_string()).unwrap(), DEP_COMMIT);
    let tip = ADD_COMMIT.to_string();
    let bytes = encoded(&m);
    let same = run_sync(m, &vec![], vec![Some(main_branch_at(DEP_COMMIT))]).unwrap();
    assert!(same.changed.is_empty());
    assert_eq!(splice_parents(&tip, &bytes, &encoded(&same.manifest), &same.extra_parents), None);
    let changed = run_sync(same.manifest, &vec![], vec![Some(main_branch_at(DEP_UPDATE))]).unwrap();
    assert_eq!(changed.changed, vec!["lib".to_string()]);
    assert_eq!(changed.manifest.resolve_reference(&"lib".to_string(), &"main".to_string()).unwrap(), DEP_UPDATE);
    assert_eq!(
        splice_parents(&tip, &bytes, &encoded(&changed.manifest), &changed.extra_parents),
        Some(vec![tip.clone(), DEP_UPDATE.to_string()])
    );
}

#[test]
fn manifest_keeps_reference_to_missing_object() {
    // the remote advertises a tag whose commit could not be materialized
    let mut heads = heads_at(DEP_COMMIT);
    heads.push(("refs/tags/gone".to_string(), Head { commit: DEP_UPDATE.to_string() }));
    let fetched = Fetched {
        heads,
        commits: vec![DEP_COMMIT.to_string(), DEP_COMMIT.to_string()],
        reach: vec![vec![true, true], vec![true, true]],
    };
    let kept = prune(&fetched.commits, &fetched.reach);
    assert_eq!(kept, vec![DEP_COMMIT.to_string()]);
    let mut m = init_manifest();
    m.add_dependency("dep".to_string(), "/tmp/dep".to_string(), fetched.heads).unwrap();
    assert_eq!(m.resolve_reference(&"dep".to_string(), &"gone".to_string()).unwrap(), DEP_UPDATE);
}

#[test]
fn first_line_of_messages() {
    assert_eq!(first_line("Sync: a, b\n\nmore"), "Sync: a, b");
    assert_eq!(first_line("Add x from y\r\nrest"), "Add x from y");
    assert_eq!(first_line("single"), "single");
    assert_eq!(first_line(""), "");
    assert_eq!(first_line("\nsecond"), "");
}

#[test]
fn add_refuses_duplicate() {
    let (mut m, _) = added();
    let before = m.clone();
    assert_eq!(m.add_dependency("dep".to_string(), "/elsewhere".to_string(), vec![]), Err(LedgerError::DuplicateDependency));
    assert_eq!(m, before);
}

#[test]
fn add_message_text() {
    assert_eq!(add_message(&"dep".to_string(), &"/tmp/dep".to_string()), "Add dep from /tmp/dep");
}

#[test]
fn sync_message_joins_names() {
    assert_eq!(sync_message(&vec!["a".to_string(), "b".to_string(), "c".to_string()]), "Sync: a, b, c");
    assert_eq!(sync_message(&vec![]), "Sync: ");
}

#[test]
fn sync_retains_commits_of_every_synced_dependency() {
    let mut m = init_manifest();
    m.add_dependency("a".to_string(), "/tmp/a".to_string(), heads_at(DEP_COMMIT)).unwrap();
    m.add_dependency("b".to_string(), "/tmp/b".to_string(), heads_at(INIT_COMMIT)).unwrap();
    let out = run_sync(m, &vec![], vec![Some(fetched_at(DEP_UPDATE)), Some(fetched_at(INIT_COMMIT))]).unwrap();
    assert_eq!(out.changed, vec!["a".to_string()]);
    assert_eq!(out.extra_parents, vec![DEP_UPDATE.to_string(), INIT_COMMIT.to_string()]);
}

#[test]
fn sync_without_change_retains_nothing() {
    let mut m = init_manifest();
    m.add_dependency("a".to_string(), "/tmp/a".to_string(), heads_at(DEP_COMMIT)).unwrap();
    m.add_dependency("b".to_string(), "/tmp/b".to_string(), heads_at(INIT_COMMIT)).unwrap();
    let out = run_sync(m, &vec![], vec![Some(fetched_at(DEP_COMMIT)), Some(fetched_at(INIT_COMMIT))]).unwrap();
    assert!(out.changed.is_empty());
    assert!(out.extra_parents.is_empty());
}

#[test]
fn manifest_clone_is_equal() {
    let (m, _) = added();
    let c = m.clone();
    assert_eq!(c, m);
    assert_eq!(c.list_dependencies(), m.list_dependencies());
}
