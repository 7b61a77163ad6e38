use k8s_openapi::api::rbac::v1::PolicyRule;
use rbac_grants::grant_controller::GrantController;
use rbac_grants::output_types::{HealthCheck, OutputAll};
use rbac_grants::permission_controller::PermissionController;
use rbac_grants::permissions::{create_permission_output, permissions_for_subject, PermissionError};
use rbac_grants::rbac_grant::{
    BindingResource, GrantSubject, GrantType, IDType, PermissionResource, RBACGrant, RBACId, RoleRef,
    SubjectKind, SubjectRef,
};
use rbac_grants::reconciler::WatchEvent;
use rbac_grants::structs::Filter;

fn s(x: &str) -> String {
    x.to_string()
}

fn alice() -> GrantSubject {
    GrantSubject { kind: SubjectKind::User, name: s("alice"), namespace: None, api_group: s("rbac.authorization.k8s.io") }
}

fn alice_ref() -> SubjectRef {
    SubjectRef { kind: s("User"), name: s("alice"), namespace: None, api_group: Some(s("rbac.authorization.k8s.io")) }
}

fn rule(verb: &str) -> PolicyRule {
    PolicyRule { verbs: vec![s(verb)], resources: Some(vec![s("pods")]), ..Default::default() }
}

fn binding(name: &str, namespace: Option<&str>, kind: &str, target: &str) -> BindingResource {
    BindingResource {
        name: Some(s(name)),
        namespace: namespace.map(s),
        role_ref: RoleRef { kind: s(kind), name: s(target) },
        subjects: vec![alice_ref()],
    }
}

#[test]
fn end_to_end_scenario() {
    let mut index = GrantController::new();
    let mut cache = PermissionController::new();
    let rb1 = binding("rb1", Some("ns1"), "Role", "viewer");
    index.apply_event(GrantType::RoleBinding, WatchEvent::Applied(rb1.clone()));
    let viewer = PermissionResource { name: Some(s("viewer")), namespace: Some(s("ns1")), rules: vec![rule("get")] };
    cache.apply_event(IDType::Role, WatchEvent::Applied(viewer));
    let grants = index.get_grants_for_subject(&alice()).unwrap();
    assert_eq!(grants, vec![RBACGrant::from_role_binding(&rb1).unwrap()]);
    let perms = permissions_for_subject(&index, &cache, &alice(), &None).unwrap();
    assert_eq!(perms, vec![(s("ns1"), vec![rule("get")])]);
    index.apply_event(GrantType::RoleBinding, WatchEvent::Deleted(rb1));
    assert_eq!(index.get_grants_for_subject(&alice()), Some(vec![]));
}

#[test]
fn unresolved_permission_lookup_is_an_error() {
    let mut index = GrantController::new();
    let cache = PermissionController::new();
    index.apply_event(GrantType::RoleBinding, WatchEvent::Applied(binding("rb1", Some("ns1"), "Role", "viewer")));
    match permissions_for_subject(&index, &cache, &alice(), &None) {
        Err(PermissionError::UnresolvedPermissionSet(id)) => {
            assert_eq!(id, RBACId { rbac_type: IDType::Role, namespace: Some(s("ns1")), name: s("viewer") });
        },
        other => panic!("expected an unresolved permission set, got {:?}", other),
    }
}

#[test]
fn unknown_subject_is_an_error() {
    let index = GrantController::new();
    let cache = PermissionController::new();
    assert!(matches!(
        permissions_for_subject(&index, &cache, &alice(), &None),
        Err(PermissionError::UnknownSubject)
    ));
}

#[test]
fn filter_selects_namespaces_and_cluster_wide_grants() {
    let mut index = GrantController::new();
    let mut cache = PermissionController::new();
    index.apply_event(GrantType::RoleBinding, WatchEvent::Applied(binding("rb-a", Some("team-a"), "Role", "view")));
    index.apply_event(GrantType::RoleBinding, WatchEvent::Applied(binding("rb-b", Some("team-b"), "Role", "edit")));
    index.apply_event(
        GrantType::ClusterRoleBinding,
        WatchEvent::Applied(binding("crb", None, "ClusterRole", "admin")),
    );
    cache.apply_event(
        IDType::Role,
        WatchEvent::Restarted(vec![
            PermissionResource { name: Some(s("view")), namespace: Some(s("team-a")), rules: vec![rule("get")] },
            PermissionResource { name: Some(s("edit")), namespace: Some(s("team-b")), rules: vec![rule("update")] },
        ]),
    );
    cache.apply_event(
        IDType::ClusterRole,
        WatchEvent::Applied(PermissionResource { name: Some(s("admin")), namespace: None, rules: vec![rule("*")] }),
    );
    let filter = Some(Filter { namespace: Some(s("team-a")) });
    let mut perms = permissions_for_subject(&index, &cache, &alice(), &filter).unwrap();
    perms.sort_by(|a, b| a.0.cmp(&b.0));
    assert_eq!(perms, vec![(s(""), vec![rule("*")]), (s("team-a"), vec![rule("get")])]);
    let mut all = permissions_for_subject(&index, &cache, &alice(), &None).unwrap();
    all.sort_by(|a, b| a.0.cmp(&b.0));
    assert_eq!(all.len(), 3);
    assert_eq!(all[2], (s("team-b"), vec![rule("update")]));
}

#[test]
fn rules_of_one_namespace_are_appended_in_grant_order() {
    let mut cache = PermissionController::new();
    cache.store_permission_id(
        &RBACId { rbac_type: IDType::Role, namespace: Some(s("ns1")), name: s("r1") },
        &vec![rule("get")],
    );
    cache.store_permission_id(
        &RBACId { rbac_type: IDType::Role, namespace: Some(s("ns1")), name: s("r2") },
        &vec![rule("list"), rule("watch")],
    );
    let g1 = RBACGrant::from_role_binding(&binding("b1", Some("ns1"), "Role", "r1")).unwrap();
    let g2 = RBACGrant::from_role_binding(&binding("b2", Some("ns1"), "Role", "r2")).unwrap();
    let out = create_permission_output(&vec![g2, g1], &None, &cache).unwrap();
    assert_eq!(out, vec![(s("ns1"), vec![rule("list"), rule("watch"), rule("get")])]);
}

#[test]
fn health_and_output_of_the_whole_index() {
    let mut index = GrantController::new();
    let mut cache = PermissionController::new();
    index.apply_event(GrantType::RoleBinding, WatchEvent::Applied(binding("rb1", Some("ns1"), "Role", "viewer")));
    index.apply_event(
        GrantType::ClusterRoleBinding,
        WatchEvent::Applied(binding("crb", None, "ClusterRole", "admin")),
    );
    cache.apply_event(
        IDType::ClusterRole,
        WatchEvent::Applied(PermissionResource { name: Some(s("admin")), namespace: None, rules: vec![] }),
    );
    let health = HealthCheck::new(&index, &cache);
    assert_eq!(health.num_grants, 2);
    assert_eq!(health.num_permissions, 1);
    let out = OutputAll::from_grants(index.get_grants());
    assert_eq!(out.subject_grants.len(), 1);
    assert_eq!(out.subject_grants[0].subject.name, "alice");
    assert_eq!(out.subject_grants[0].subject.kind, "User");
    let mut namespaces: Vec<String> = out.subject_grants[0].grants.iter().map(|g| g.namespace.clone()).collect();
    namespaces.sort();
    assert_eq!(namespaces, vec![s("*"), s("ns1")]);
}
