use rbac_grants::output_types::{OutputGrant, OutputId, OutputSubject};
use rbac_grants::rbac_grant::{
    BindingResource, GrantSubject, GrantType, IDType, NormalizationError, PermissionResource,
    RBACGrant, RBACId, RoleRef, SubjectKind, SubjectRef,
};
use rbac_grants::structs::{grant_filter_applies, Filter, GrantInput, UserType};

fn s(x: &str) -> String {
    x.to_string()
}

fn binding(name: Option<&str>, namespace: Option<&str>, kind: &str, target: &str) -> BindingResource {
    BindingResource {
        name: name.map(s),
        namespace: namespace.map(s),
        role_ref: RoleRef { kind: s(kind), name: s(target) },
        subjects: vec![],
    }
}

fn subject_ref(kind: &str, name: &str, namespace: Option<&str>, api_group: Option<&str>) -> SubjectRef {
    SubjectRef {
        kind: s(kind),
        name: s(name),
        namespace: namespace.map(s),
        api_group: api_group.map(s),
    }
}

#[test]
fn role_binding_to_role_targets_its_namespace() {
    let g = RBACGrant::from_role_binding(&binding(Some("rb1"), Some("ns1"), "Role", "viewer")).unwrap();
    assert_eq!(g.grant_type, GrantType::RoleBinding);
    assert_eq!(g.namespace, Some(s("ns1")));
    assert_eq!(g.name, "rb1");
    assert_eq!(
        g.permissions_id,
        RBACId { rbac_type: IDType::Role, namespace: Some(s("ns1")), name: s("viewer") }
    );
}

#[test]
fn role_binding_to_cluster_role_targets_cluster_scope() {
    let g = RBACGrant::from_role_binding(&binding(Some("rb2"), Some("ns1"), "ClusterRole", "admin")).unwrap();
    assert_eq!(g.namespace, Some(s("ns1")));
    assert_eq!(
        g.permissions_id,
        RBACId { rbac_type: IDType::ClusterRole, namespace: None, name: s("admin") }
    );
}

#[test]
fn cluster_role_binding_is_cluster_scoped_whatever_its_namespace() {
    let g = RBACGrant::from_cluster_role_binding(&binding(Some("crb"), Some("odd"), "ClusterRole", "admin"))
        .unwrap();
    assert_eq!(g.grant_type, GrantType::ClusterRoleBinding);
    assert_eq!(g.permissions_id.namespace, None);
    assert_eq!(g.permissions_id.rbac_type, IDType::ClusterRole);
    let g = RBACGrant::from_cluster_role_binding(&binding(Some("crb"), None, "Role", "r")).unwrap();
    assert_eq!(g.permissions_id, RBACId { rbac_type: IDType::Role, namespace: None, name: s("r") });
}

#[test]
fn binding_without_name_is_rejected() {
    let r = RBACGrant::from_role_binding(&binding(None, Some("ns1"), "Role", "viewer"));
    assert_eq!(r, Err(NormalizationError::MissingName));
}

#[test]
fn binding_to_unknown_kind_is_rejected() {
    let r = RBACGrant::from_role_binding(&binding(Some("rb"), Some("ns1"), "Policy", "viewer"));
    assert_eq!(r, Err(NormalizationError::UnknownReferenceKind));
    let r = RBACGrant::from_cluster_role_binding(&binding(Some("rb"), None, "role", "viewer"));
    assert_eq!(r, Err(NormalizationError::UnknownReferenceKind));
}

#[test]
fn subjects_normalize_by_kind() {
    let u = GrantSubject::from_subject(&subject_ref("User", "alice", Some("ns"), Some("rbac.authorization.k8s.io")))
        .unwrap();
    assert_eq!(u.kind, SubjectKind::User);
    assert_eq!(u.name, "alice");
    assert_eq!(u.namespace, None);
    assert_eq!(u.api_group, "rbac.authorization.k8s.io");
    let g = GrantSubject::from_subject(&subject_ref("Group", "devs", None, None)).unwrap();
    assert_eq!(g.kind, SubjectKind::Group);
    assert_eq!(g.api_group, "");
    let sa = GrantSubject::from_subject(&subject_ref("ServiceAccount", "bot", Some("ns1"), None)).unwrap();
    assert_eq!(sa.kind, SubjectKind::ServiceAccount);
    assert_eq!(sa.namespace, Some(s("ns1")));
    assert_eq!(sa.api_group, "");
}

#[test]
fn unknown_subject_kind_is_rejected() {
    let r = GrantSubject::from_subject(&subject_ref("Robot", "r2", None, None));
    assert_eq!(r, Err(NormalizationError::UnknownSubjectKind));
}

#[test]
fn permission_set_ids_project_the_resource() {
    let role = PermissionResource { name: Some(s("viewer")), namespace: Some(s("ns1")), rules: vec![] };
    assert_eq!(
        RBACId::from_role(&role),
        RBACId { rbac_type: IDType::Role, namespace: Some(s("ns1")), name: s("viewer") }
    );
    let cr = PermissionResource { name: None, namespace: None, rules: vec![] };
    assert_eq!(
        RBACId::from_cluster_role(&cr),
        RBACId { rbac_type: IDType::ClusterRole, namespace: None, name: s("") }
    );
}

#[test]
fn kinds_are_named_as_the_cluster_spells_them() {
    assert_eq!(GrantType::RoleBinding.name(), "RoleBinding");
    assert_eq!(GrantType::ClusterRoleBinding.name(), "ClusterRoleBinding");
    assert_eq!(IDType::Role.name(), "Role");
    assert_eq!(IDType::ClusterRole.name(), "ClusterRole");
    assert_eq!(SubjectKind::User.name(), "User");
    assert_eq!(SubjectKind::Group.name(), "Group");
    assert_eq!(SubjectKind::ServiceAccount.name(), "ServiceAccount");
}

#[test]
fn grant_input_names_a_subject() {
    let input = GrantInput { name: s("alice"), namespace: None, user_type: UserType::User, filter: None };
    let subject = input.to_grant_subject();
    assert_eq!(subject.kind, SubjectKind::User);
    assert_eq!(subject.api_group, "rbac.authorization.k8s.io");
    let input = GrantInput {
        name: s("bot"),
        namespace: Some(s("ns1")),
        user_type: UserType::ServiceAccount,
        filter: None,
    };
    let subject = input.to_grant_subject();
    assert_eq!(subject.kind, SubjectKind::ServiceAccount);
    assert_eq!(subject.namespace, Some(s("ns1")));
    assert_eq!(subject.api_group, "");
    let input = GrantInput { name: s("devs"), namespace: None, user_type: UserType::Group, filter: None };
    assert_eq!(input.to_grant_subject().kind, SubjectKind::Group);
}

#[test]
fn namespace_filter_semantics() {
    let cluster_wide = RBACGrant::from_cluster_role_binding(&binding(Some("crb"), None, "ClusterRole", "view"))
        .unwrap();
    let in_b = RBACGrant::from_role_binding(&binding(Some("rb"), Some("team-b"), "Role", "view")).unwrap();
    let in_a = RBACGrant::from_role_binding(&binding(Some("rb"), Some("team-a"), "Role", "view")).unwrap();
    let team_a = Filter { namespace: Some(s("team-a")) };
    assert!(grant_filter_applies(&cluster_wide, &team_a));
    assert!(!grant_filter_applies(&in_b, &team_a));
    assert!(grant_filter_applies(&in_a, &team_a));
    let any = Filter { namespace: None };
    assert!(grant_filter_applies(&in_b, &any));
}

#[test]
fn output_forms_fill_absent_namespaces() {
    let g = RBACGrant::from_cluster_role_binding(&binding(Some("crb"), None, "ClusterRole", "view")).unwrap();
    let out = OutputGrant::from_rbac_grant(g);
    assert_eq!(out.grant_type, "ClusterRoleBinding");
    assert_eq!(out.namespace, "*");
    assert_eq!(out.name, "crb");
    assert_eq!(out.rbac_id.namespace, "");
    assert_eq!(out.rbac_id.rbac_type, "ClusterRole");
    assert_eq!(out.rbac_id.name, "view");
    let id = OutputId::from_rbac_id(RBACId { rbac_type: IDType::Role, namespace: Some(s("ns1")), name: s("r") });
    assert_eq!(id.namespace, "ns1");
    assert_eq!(id.rbac_type, "Role");
    let subject = OutputSubject::from_grant_subject(GrantSubject {
        kind: SubjectKind::ServiceAccount,
        name: s("bot"),
        namespace: None,
        api_group: s(""),
    });
    assert_eq!(subject.kind, "ServiceAccount");
    assert_eq!(subject.namespace, "");
}
