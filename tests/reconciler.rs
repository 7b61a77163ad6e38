use k8s_openapi::api::rbac::v1::PolicyRule;
use rbac_grants::grant_controller::GrantController;
use rbac_grants::permission_controller::PermissionController;
use rbac_grants::rbac_grant::{
    BindingResource, GrantSubject, GrantType, IDType, PermissionResource, RBACGrant, RBACId, RoleRef,
    SubjectKind, SubjectRef,
};
use rbac_grants::reconciler::WatchEvent;

fn s(x: &str) -> String {
    x.to_string()
}

fn user_ref(name: &str) -> SubjectRef {
    SubjectRef { kind: s("User"), name: s(name), namespace: None, api_group: Some(s("rbac.authorization.k8s.io")) }
}

fn user(name: &str) -> GrantSubject {
    GrantSubject { kind: SubjectKind::User, name: s(name), namespace: None, api_group: s("rbac.authorization.k8s.io") }
}

fn role_binding(name: &str, namespace: &str, role: &str, subjects: Vec<SubjectRef>) -> BindingResource {
    BindingResource {
        name: Some(s(name)),
        namespace: Some(s(namespace)),
        role_ref: RoleRef { kind: s("Role"), name: s(role) },
        subjects,
    }
}

fn rule(verb: &str) -> PolicyRule {
    PolicyRule { verbs: vec![s(verb)], resources: Some(vec![s("pods")]), ..Default::default() }
}

fn names(grants: &[RBACGrant]) -> Vec<String> {
    let mut v: Vec<String> = grants.iter().map(|g| g.name.clone()).collect();
    v.sort();
    v
}

#[test]
fn resync_replaces_not_merges() {
    let mut index = GrantController::new();
    let t = GrantType::RoleBinding;
    index.apply_event(t, WatchEvent::Applied(role_binding("A", "ns1", "r", vec![user_ref("u1")])));
    index.apply_event(t, WatchEvent::Applied(role_binding("B", "ns1", "r", vec![user_ref("u1"), user_ref("u2")])));
    let crb = BindingResource {
        name: Some(s("crb")),
        namespace: None,
        role_ref: RoleRef { kind: s("ClusterRole"), name: s("admin") },
        subjects: vec![user_ref("u2")],
    };
    index.apply_event(GrantType::ClusterRoleBinding, WatchEvent::Applied(crb));
    index.apply_event(t, WatchEvent::Restarted(vec![role_binding("C", "ns1", "r", vec![user_ref("u1")])]));
    assert_eq!(names(&index.get_grants_for_subject(&user("u1")).unwrap()), vec![s("C")]);
    assert_eq!(names(&index.get_grants_for_subject(&user("u2")).unwrap()), vec![s("crb")]);
    let a = RBACGrant::from_role_binding(&role_binding("A", "ns1", "r", vec![])).unwrap();
    assert!(index.get_current_subjects_for_grant(&a).is_empty());
}

#[test]
fn applied_binding_retargets_grant() {
    let mut index = GrantController::new();
    let t = GrantType::RoleBinding;
    index.apply_event(t, WatchEvent::Applied(role_binding("X", "ns1", "r1", vec![user_ref("u1")])));
    index.apply_event(t, WatchEvent::Applied(role_binding("X", "ns1", "r2", vec![user_ref("u2")])));
    assert_eq!(index.get_grants_for_subject(&user("u1")), Some(vec![]));
    let held = index.get_grants_for_subject(&user("u2")).unwrap();
    assert_eq!(held.len(), 1);
    assert_eq!(held[0].name, "X");
    assert_eq!(
        held[0].permissions_id,
        RBACId { rbac_type: IDType::Role, namespace: Some(s("ns1")), name: s("r2") }
    );
}

#[test]
fn malformed_binding_and_subject_are_skipped() {
    let mut index = GrantController::new();
    let t = GrantType::RoleBinding;
    let mut nameless = role_binding("x", "ns1", "r", vec![user_ref("u1")]);
    nameless.name = None;
    index.apply_event(t, WatchEvent::Applied(nameless));
    assert_eq!(index.get_grants_for_subject(&user("u1")), None);
    let robot = SubjectRef { kind: s("Robot"), name: s("r2"), namespace: None, api_group: None };
    index.apply_event(t, WatchEvent::Applied(role_binding("rb", "ns1", "r", vec![robot, user_ref("u1")])));
    assert_eq!(names(&index.get_grants_for_subject(&user("u1")).unwrap()), vec![s("rb")]);
    assert_eq!(index.grant_counts(), 1);
}

#[test]
fn deleted_binding_leaves_its_subjects_known() {
    let mut index = GrantController::new();
    let t = GrantType::RoleBinding;
    index.apply_event(t, WatchEvent::Applied(role_binding("rb1", "ns1", "r", vec![user_ref("alice")])));
    index.apply_event(t, WatchEvent::Deleted(role_binding("rb1", "ns1", "r", vec![])));
    assert_eq!(index.get_grants_for_subject(&user("alice")), Some(vec![]));
    assert_eq!(index.grant_counts(), 0);
}

#[test]
fn permission_events_update_the_cache() {
    let mut cache = PermissionController::new();
    let viewer = PermissionResource { name: Some(s("viewer")), namespace: Some(s("ns1")), rules: vec![rule("get")] };
    let admin = PermissionResource { name: Some(s("admin")), namespace: None, rules: vec![rule("*")] };
    cache.apply_event(IDType::Role, WatchEvent::Applied(viewer.clone()));
    cache.apply_event(IDType::ClusterRole, WatchEvent::Applied(admin.clone()));
    let viewer_id = RBACId::from_role(&viewer);
    let admin_id = RBACId::from_cluster_role(&admin);
    assert_eq!(cache.get_permission_for_id(&viewer_id), Some(vec![rule("get")]));
    let changed = PermissionResource { rules: vec![rule("list"), rule("watch")], ..viewer.clone() };
    cache.apply_event(IDType::Role, WatchEvent::Applied(changed));
    assert_eq!(cache.get_permission_for_id(&viewer_id), Some(vec![rule("list"), rule("watch")]));
    assert_eq!(cache.len(), 2);
    cache.apply_event(IDType::Role, WatchEvent::Deleted(viewer.clone()));
    assert_eq!(cache.get_permission_for_id(&viewer_id), None);
    assert_eq!(cache.get_permission_for_id(&admin_id), Some(vec![rule("*")]));
}

#[test]
fn permission_resync_keeps_the_other_kind() {
    let mut cache = PermissionController::new();
    let a = PermissionResource { name: Some(s("a")), namespace: Some(s("ns1")), rules: vec![rule("get")] };
    let b = PermissionResource { name: Some(s("b")), namespace: Some(s("ns1")), rules: vec![rule("get")] };
    let admin = PermissionResource { name: Some(s("admin")), namespace: None, rules: vec![rule("*")] };
    cache.apply_event(IDType::Role, WatchEvent::Applied(a.clone()));
    cache.apply_event(IDType::ClusterRole, WatchEvent::Applied(admin.clone()));
    cache.apply_event(IDType::Role, WatchEvent::Restarted(vec![b.clone()]));
    assert_eq!(cache.get_permission_for_id(&RBACId::from_role(&a)), None);
    assert_eq!(cache.get_permission_for_id(&RBACId::from_role(&b)), Some(vec![rule("get")]));
    assert_eq!(cache.get_permission_for_id(&RBACId::from_cluster_role(&admin)), Some(vec![rule("*")]));
    cache.remove_all_of_type(IDType::ClusterRole);
    assert_eq!(cache.len(), 1);
    let all = cache.get_permissions();
    assert_eq!(all.len(), 1);
    assert_eq!(all[0].0, RBACId::from_role(&b));
}
