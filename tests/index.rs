use rbac_grants::grant_controller::GrantController;
use rbac_grants::rbac_grant::{GrantSubject, GrantType, IDType, RBACGrant, RBACId, SubjectKind};

fn s(x: &str) -> String {
    x.to_string()
}

fn user(name: &str) -> GrantSubject {
    GrantSubject { kind: SubjectKind::User, name: s(name), namespace: None, api_group: s("rbac.authorization.k8s.io") }
}

fn grant(grant_type: GrantType, namespace: Option<&str>, name: &str, target: &str) -> RBACGrant {
    let (rbac_type, target_ns) = match grant_type {
        GrantType::RoleBinding => (IDType::Role, namespace.map(s)),
        GrantType::ClusterRoleBinding => (IDType::ClusterRole, None),
    };
    RBACGrant {
        grant_type,
        namespace: namespace.map(s),
        name: s(name),
        permissions_id: RBACId { rbac_type, namespace: target_ns, name: s(target) },
    }
}

fn names(grants: &[RBACGrant]) -> Vec<String> {
    let mut v: Vec<String> = grants.iter().map(|g| g.name.clone()).collect();
    v.sort();
    v
}

fn subject_names(subjects: &[GrantSubject]) -> Vec<String> {
    let mut v: Vec<String> = subjects.iter().map(|x| x.name.clone()).collect();
    v.sort();
    v
}

fn holds(index: &GrantController, subject: &GrantSubject, g: &RBACGrant) -> bool {
    match index.get_grants_for_subject(subject) {
        Some(gs) => gs.iter().any(|x| x.key() == g.key()),
        None => false,
    }
}

fn listed(index: &GrantController, subject: &GrantSubject, g: &RBACGrant) -> bool {
    index.get_current_subjects_for_grant(g).iter().any(|x| x == subject)
}

#[test]
fn index_symmetry_over_a_sequence_of_calls() {
    let mut index = GrantController::new();
    let subjects = [user("alice"), user("bob"), user("carol")];
    let grants = [
        grant(GrantType::RoleBinding, Some("ns1"), "rb1", "viewer"),
        grant(GrantType::RoleBinding, Some("ns2"), "rb1", "viewer"),
        grant(GrantType::ClusterRoleBinding, None, "crb", "admin"),
    ];
    let steps: [(bool, usize, usize); 9] = [
        (true, 0, 0),
        (true, 1, 0),
        (true, 0, 2),
        (false, 1, 0),
        (true, 2, 1),
        (false, 2, 2),
        (true, 1, 2),
        (false, 0, 0),
        (true, 0, 0),
    ];
    for (add, si, gi) in steps {
        if add {
            index.add_grant_for_subject(&subjects[si], &grants[gi]);
        } else {
            index.remove_grant_for_subject(&subjects[si], &grants[gi]);
        }
        for subject in &subjects {
            for g in &grants {
                assert_eq!(holds(&index, subject, g), listed(&index, subject, g));
            }
        }
    }
    assert!(holds(&index, &subjects[0], &grants[0]));
    assert!(!holds(&index, &subjects[1], &grants[0]));
}

#[test]
fn adding_twice_is_adding_once() {
    let mut once = GrantController::new();
    let mut twice = GrantController::new();
    let a = user("alice");
    let g = grant(GrantType::RoleBinding, Some("ns1"), "rb1", "viewer");
    once.add_grant_for_subject(&a, &g);
    twice.add_grant_for_subject(&a, &g);
    twice.add_grant_for_subject(&a, &g);
    assert_eq!(once.get_grants_for_subject(&a), twice.get_grants_for_subject(&a));
    assert_eq!(twice.get_grants_for_subject(&a).unwrap().len(), 1);
    assert_eq!(twice.get_current_subjects_for_grant(&g).len(), 1);
    assert_eq!(once.grant_counts(), twice.grant_counts());
}

#[test]
fn removing_an_absent_pair_changes_nothing() {
    let mut index = GrantController::new();
    let a = user("alice");
    let b = user("bob");
    let g = grant(GrantType::RoleBinding, Some("ns1"), "rb1", "viewer");
    let h = grant(GrantType::RoleBinding, Some("ns1"), "rb2", "viewer");
    index.add_grant_for_subject(&a, &g);
    index.remove_grant_for_subject(&a, &h);
    index.remove_grant_for_subject(&b, &g);
    assert_eq!(index.get_grants_for_subject(&a).unwrap(), vec![g.clone()]);
    assert_eq!(index.get_grants_for_subject(&b), None);
    assert_eq!(index.get_current_subjects_for_grant(&g), vec![a.clone()]);
    assert_eq!(index.grant_counts(), 1);
}

#[test]
fn unobserved_subject_differs_from_subject_without_grants() {
    let mut index = GrantController::new();
    let a = user("alice");
    let g = grant(GrantType::RoleBinding, Some("ns1"), "rb1", "viewer");
    assert_eq!(index.get_grants_for_subject(&a), None);
    index.add_grant_for_subject(&a, &g);
    index.remove_grant_for_subject(&a, &g);
    assert_eq!(index.get_grants_for_subject(&a), Some(vec![]));
    assert!(index.get_current_subjects_for_grant(&g).is_empty());
}

#[test]
fn later_target_supersedes() {
    let mut index = GrantController::new();
    let a = user("alice");
    let b = user("bob");
    let old = grant(GrantType::RoleBinding, Some("ns1"), "rb1", "viewer");
    let new = grant(GrantType::RoleBinding, Some("ns1"), "rb1", "editor");
    index.add_grant_for_subject(&a, &old);
    index.add_grant_for_subject(&b, &new);
    assert_eq!(index.get_grants_for_subject(&a).unwrap(), vec![new.clone()]);
    assert_eq!(subject_names(&index.get_current_subjects_for_grant(&old)), vec![s("alice"), s("bob")]);
}

#[test]
fn remove_grant_drops_it_everywhere() {
    let mut index = GrantController::new();
    let a = user("alice");
    let b = user("bob");
    let g = grant(GrantType::RoleBinding, Some("ns1"), "rb1", "viewer");
    let h = grant(GrantType::ClusterRoleBinding, None, "crb", "admin");
    index.add_grant_for_subject(&a, &g);
    index.add_grant_for_subject(&b, &g);
    index.add_grant_for_subject(&b, &h);
    index.remove_grant(&g);
    assert_eq!(index.get_grants_for_subject(&a), Some(vec![]));
    assert_eq!(index.get_grants_for_subject(&b).unwrap(), vec![h.clone()]);
    assert!(index.get_current_subjects_for_grant(&g).is_empty());
    assert_eq!(index.grant_counts(), 1);
}

#[test]
fn remove_all_of_type_keeps_the_other_type() {
    let mut index = GrantController::new();
    let a = user("alice");
    let b = user("bob");
    let rb1 = grant(GrantType::RoleBinding, Some("ns1"), "rb1", "viewer");
    let rb2 = grant(GrantType::RoleBinding, Some("ns2"), "rb2", "viewer");
    let crb = grant(GrantType::ClusterRoleBinding, None, "crb", "admin");
    index.add_grant_for_subject(&a, &rb1);
    index.add_grant_for_subject(&a, &crb);
    index.add_grant_for_subject(&b, &rb2);
    index.remove_all_of_type(GrantType::RoleBinding);
    assert_eq!(index.get_grants_for_subject(&a).unwrap(), vec![crb.clone()]);
    assert_eq!(index.get_grants_for_subject(&b), Some(vec![]));
    assert!(index.get_current_subjects_for_grant(&rb1).is_empty());
    assert_eq!(index.get_current_subjects_for_grant(&crb), vec![a.clone()]);
}

#[test]
fn grant_counts_sums_every_subject() {
    let mut index = GrantController::new();
    assert_eq!(index.grant_counts(), 0);
    let a = user("alice");
    let b = user("bob");
    let g = grant(GrantType::RoleBinding, Some("ns1"), "rb1", "viewer");
    let h = grant(GrantType::ClusterRoleBinding, None, "crb", "admin");
    index.add_grant_for_subject(&a, &g);
    index.add_grant_for_subject(&a, &h);
    index.add_grant_for_subject(&b, &h);
    assert_eq!(index.grant_counts(), 3);
}

#[test]
fn snapshot_lists_each_observed_subject_once() {
    let mut index = GrantController::new();
    let a = user("alice");
    let b = user("bob");
    let g = grant(GrantType::RoleBinding, Some("ns1"), "rb1", "viewer");
    let h = grant(GrantType::ClusterRoleBinding, None, "crb", "admin");
    index.add_grant_for_subject(&a, &g);
    index.add_grant_for_subject(&a, &h);
    index.add_grant_for_subject(&b, &h);
    index.remove_grant_for_subject(&b, &h);
    let all = index.get_grants();
    assert_eq!(all.len(), 2);
    for (subject, grants) in &all {
        if subject == &a {
            assert_eq!(names(grants), vec![s("crb"), s("rb1")]);
        } else {
            assert_eq!(subject, &b);
            assert!(grants.is_empty());
        }
    }
}
