use paravendor::error::LedgerError;
use paravendor::ledger::{bytes_equal, locate_ledger, pick_remote, plan_bootstrap, remote_ledger_branch, Bootstrap};
use paravendor::manifest::{Dependency, Head, Manifest};
use paravendor::resolve::lookup_head;
use paravendor::sync::heads_equal;

fn head(name: &str, commit: &str) -> (String, Head) {
    (name.to_string(), Head { commit: commit.to_string() })
}

#[test]
fn resolve_fallback_order() {
    let dep = Dependency {
        url: "u".to_string(),
        heads: vec![head("refs/heads/main", "X"), head("refs/tags/v1^{}", "Y")],
    };
    assert_eq!(dep.resolve(&"main".to_string()), Some("X".to_string()));
    assert_eq!(dep.resolve(&"v1".to_string()), Some("Y".to_string()));
    assert_eq!(dep.resolve(&"v2".to_string()), None);
}

#[test]
fn resolve_prefers_exact_then_branch_then_peeled_then_tag() {
    let dep = Dependency {
        url: "u".to_string(),
        heads: vec![
            head("refs/tags/x", "T"),
            head("refs/tags/x^{}", "P"),
            head("refs/heads/x", "B"),
            head("x", "E"),
        ],
    };
    assert_eq!(dep.resolve(&"x".to_string()), Some("E".to_string()));
    let dep = Dependency { url: "u".to_string(), heads: dep.heads[..3].to_vec() };
    assert_eq!(dep.resolve(&"x".to_string()), Some("B".to_string()));
    let dep = Dependency { url: "u".to_string(), heads: dep.heads[..2].to_vec() };
    assert_eq!(dep.resolve(&"x".to_string()), Some("P".to_string()));
    let dep = Dependency { url: "u".to_string(), heads: dep.heads[..1].to_vec() };
    assert_eq!(dep.resolve(&"x".to_string()), Some("T".to_string()));
}

#[test]
fn resolve_reference_errors() {
    let mut m = Manifest::default();
    m.add_dependency("d".to_string(), "u".to_string(), vec![head("HEAD", "C")]).unwrap();
    assert_eq!(m.resolve_reference(&"e".to_string(), &"HEAD".to_string()), Err(LedgerError::DependencyNotFound));
    assert_eq!(m.resolve_reference(&"d".to_string(), &"main".to_string()), Err(LedgerError::ReferenceNotFound));
    assert_eq!(m.resolve_reference(&"d".to_string(), &"HEAD".to_string()), Ok("C".to_string()));
}

#[test]
fn list_references_in_order() {
    let mut m = Manifest::default();
    m.add_dependency("d".to_string(), "u".to_string(), vec![head("HEAD", "C"), head("refs/heads/main", "C")]).unwrap();
    assert_eq!(m.list_references(&"d".to_string()), Ok(vec!["HEAD".to_string(), "refs/heads/main".to_string()]));
    assert_eq!(m.list_references(&"x".to_string()), Err(LedgerError::DependencyNotFound));
    assert!(m.contains(&"d".to_string()));
    assert!(!m.contains(&"D".to_string()));
}

#[test]
fn from_parts_refuses_duplicate_names() {
    let dep = Dependency { url: "u".to_string(), heads: vec![] };
    let r = Manifest::from_parts("1.1".to_string(), vec![("a".to_string(), dep.clone()), ("a".to_string(), dep.clone())]);
    assert_eq!(r, Err(LedgerError::ManifestParse));
    let r = Manifest::from_parts("1.1".to_string(), vec![("b".to_string(), dep.clone()), ("a".to_string(), dep.clone())]);
    assert_eq!(r, Err(LedgerError::ManifestParse));
    let m = Manifest::from_parts("1.0".to_string(), vec![("a".to_string(), dep.clone()), ("b".to_string(), dep)]).unwrap();
    assert_eq!(m.version(), "1.0");
    let (v, deps) = m.into_parts();
    assert_eq!(v, "1.0");
    assert_eq!(deps.len(), 2);
}

#[test]
fn heads_compare_as_maps() {
    let a = vec![head("HEAD", "1"), head("refs/heads/main", "1")];
    let b = vec![head("refs/heads/main", "1"), head("HEAD", "1")];
    let c = vec![head("refs/heads/main", "2"), head("HEAD", "1")];
    let d = vec![head("HEAD", "1")];
    assert!(heads_equal(&a, &b));
    assert!(!heads_equal(&a, &c));
    assert!(!heads_equal(&a, &d));
    assert!(!heads_equal(&d, &a));
    assert!(heads_equal(&vec![], &vec![]));
}

#[test]
fn lookup_head_exact_only() {
    let h = vec![head("refs/heads/main", "1")];
    assert_eq!(lookup_head(&h, &"refs/heads/main".to_string()), Some("1".to_string()));
    assert_eq!(lookup_head(&h, &"main".to_string()), None);
}

#[test]
fn bootstrap_decisions() {
    assert!(matches!(plan_bootstrap(true, false, Some("t".to_string())), Err(LedgerError::AlreadyInitialized)));
    assert!(matches!(plan_bootstrap(false, false, Some("t".to_string())), Ok(Bootstrap::Adopt(t)) if t == "t"));
    assert!(matches!(plan_bootstrap(false, true, Some("t".to_string())), Ok(Bootstrap::CreateRoot(_))));
    assert!(matches!(plan_bootstrap(false, false, None), Ok(Bootstrap::CreateRoot(_))));
}

#[test]
fn remote_choice() {
    let remotes = vec!["first".to_string(), "second".to_string()];
    assert_eq!(pick_remote(Some("up".to_string()), &remotes), Some("up".to_string()));
    assert_eq!(pick_remote(None, &remotes), Some("first".to_string()));
    assert_eq!(pick_remote(None, &vec![]), None);
    assert_eq!(remote_ledger_branch(&"origin".to_string()), "origin/paravendor");
}

#[test]
fn locate_prefers_local() {
    assert_eq!(locate_ledger(Some("l".to_string()), Some("r".to_string())), Ok(("l".to_string(), false)));
    assert_eq!(locate_ledger(None, Some("r".to_string())), Ok(("r".to_string(), true)));
}

#[test]
fn byte_comparison() {
    assert!(bytes_equal(&b"abc".to_vec(), &b"abc".to_vec()));
    assert!(!bytes_equal(&b"abc".to_vec(), &b"abd".to_vec()));
    assert!(!bytes_equal(&b"abc".to_vec(), &b"ab".to_vec()));
}

#[test]
fn dependencies_listed_in_name_order() {
    let mut m = Manifest::default();
    for name in ["zeta", "alpha", "Beta", "alphabet", "\u{e9}t\u{e9}"] {
        m.add_dependency(name.to_string(), format!("/src/{name}"), vec![]).unwrap();
    }
    let names: Vec<String> = m.list_dependencies().into_iter().map(|(n, _)| n).collect();
    let mut expected = names.clone();
    expected.sort();
    assert_eq!(names, expected);
    assert_eq!(names, vec!["Beta", "alpha", "alphabet", "zeta", "\u{e9}t\u{e9}"]);
    assert_eq!(m.list_dependencies()[3].1, "/src/zeta");
}
