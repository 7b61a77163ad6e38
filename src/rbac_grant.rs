//! The grant model: permission-set ids, grants and subjects, and the
//! normalization of the cluster's binding, subject and role objects into them.

use vstd::prelude::*;
use vstd::string::*;
use k8s_openapi::api::rbac::v1::PolicyRule;

verus! {

/// The kind of resource that holds permission rules.
#[derive(Clone, Copy, Debug, PartialEq, Eq, Hash, Structural)]
pub enum IDType {
    Role,
    ClusterRole,
}

/// The kind of resource that grants the rules of a permission set to subjects.
#[derive(Clone, Copy, Debug, PartialEq, Eq, Hash, Structural)]
pub enum GrantType {
    RoleBinding,
    ClusterRoleBinding,
}

/// The kinds of principal that can hold grants.
#[derive(Clone, Copy, Debug, PartialEq, Eq, Hash, Structural)]
pub enum SubjectKind {
    User,
    Group,
    ServiceAccount,
}

/// Why a resource could not be normalized into the grant model.
#[derive(Clone, Copy, Debug, PartialEq, Eq, Hash, Structural)]
pub enum NormalizationError {
    /// The binding has no name.
    MissingName,
    /// The binding refers to a kind other than `Role` or `ClusterRole`.
    UnknownReferenceKind,
    /// The subject's kind is not `User`, `Group` or `ServiceAccount`.
    UnknownSubjectKind,
}

// ---------------------------------------------------------------------------
// Views of the plain values
// ---------------------------------------------------------------------------

pub open spec fn opt_view<T: View>(o: Option<T>) -> Option<T::V> {
    match o {
        Some(t) => Some(t@),
        None => None,
    }
}

pub open spec fn view_result<T: View, E>(r: Result<T, E>) -> Result<T::V, E> {
    match r {
        Ok(t) => Ok(t@),
        Err(e) => Err(e),
    }
}

pub open spec fn empty_str() -> Seq<char> {
    Seq::<char>::empty()
}

/// Identity of a permission set.
pub struct IdView {
    pub rbac_type: IDType,
    pub namespace: Option<Seq<char>>,
    pub name: Seq<char>,
}

/// Identity of a grant: its type, namespace and name.
pub struct GrantKeyView {
    pub grant_type: GrantType,
    pub namespace: Option<Seq<char>>,
    pub name: Seq<char>,
}

/// A grant: its identity and the permission set it refers to.
pub struct GrantView {
    pub grant_type: GrantType,
    pub namespace: Option<Seq<char>>,
    pub name: Seq<char>,
    pub permissions_id: IdView,
}

impl GrantView {
    pub open spec fn key(self) -> GrantKeyView {
        GrantKeyView { grant_type: self.grant_type, namespace: self.namespace, name: self.name }
    }
}

pub struct SubjectView {
    pub kind: SubjectKind,
    pub name: Seq<char>,
    pub namespace: Option<Seq<char>>,
    pub api_group: Seq<char>,
}

pub struct SubjectRefView {
    pub kind: Seq<char>,
    pub name: Seq<char>,
    pub namespace: Option<Seq<char>>,
    pub api_group: Option<Seq<char>>,
}

pub struct BindingView {
    pub name: Option<Seq<char>>,
    pub namespace: Option<Seq<char>>,
    pub ref_kind: Seq<char>,
    pub ref_name: Seq<char>,
    pub subjects: Seq<SubjectRefView>,
}

pub struct PermissionView {
    pub name: Option<Seq<char>>,
    pub namespace: Option<Seq<char>>,
    pub rules: Seq<PolicyRule>,
}

// ---------------------------------------------------------------------------
// The model's executable types
// ---------------------------------------------------------------------------

/// Generic identifier of a resource that holds rules (a role or a cluster
/// role). It does not hold the rules themselves.
#[derive(Clone, Debug, Eq, Hash)]
pub struct RBACId {
    /// kind of the resource holding the rules
    pub rbac_type: IDType,
    /// namespace of the resource; `None` for cluster-wide resources
    pub namespace: Option<String>,
    /// name of the resource
    pub name: String,
}

/// The identity of a grant: unique within its type and namespace.
#[derive(Clone, Debug, Eq, Hash)]
pub struct GrantKey {
    pub grant_type: GrantType,
    pub namespace: Option<String>,
    pub name: String,
}

/// Generic form of a role binding or a cluster role binding.
#[derive(Clone, Debug, Eq, Hash)]
pub struct RBACGrant {
    /// kind of the binding
    pub grant_type: GrantType,
    /// namespace the grant applies in; `None` if it is cluster-wide
    pub namespace: Option<String>,
    /// name of the binding, unique within the grant type and namespace
    pub name: String,
    /// the permission set this grant refers to
    pub permissions_id: RBACId,
}

/// A user, group or service account that a binding applies to.
#[derive(Clone, Debug, Eq, Hash)]
pub struct GrantSubject {
    /// kind of the subject
    pub kind: SubjectKind,
    /// name of the subject, unique within kind and namespace
    pub name: String,
    /// namespace; set for service accounts only
    pub namespace: Option<String>,
    /// api group of the subject's kind; empty when the source gives none
    pub api_group: String,
}

/// The `roleRef` of a binding as the cluster reports it.
#[derive(Clone, Debug)]
pub struct RoleRef {
    pub kind: String,
    pub name: String,
}

/// A subject of a binding as the cluster reports it.
#[derive(Clone, Debug)]
pub struct SubjectRef {
    pub kind: String,
    pub name: String,
    pub namespace: Option<String>,
    pub api_group: Option<String>,
}

/// What the grant model reads of a role binding or cluster role binding.
#[derive(Clone, Debug)]
pub struct BindingResource {
    pub name: Option<String>,
    pub namespace: Option<String>,
    pub role_ref: RoleRef,
    pub subjects: Vec<SubjectRef>,
}

/// What the permission cache reads of a role or cluster role.
#[derive(Clone, Debug)]
pub struct PermissionResource {
    pub name: Option<String>,
    pub namespace: Option<String>,
    pub rules: Vec<PolicyRule>,
}

impl View for RBACId {
    type V = IdView;

    open spec fn view(&self) -> IdView {
        IdView { rbac_type: self.rbac_type, namespace: opt_view(self.namespace), name: self.name@ }
    }
}

impl View for GrantKey {
    type V = GrantKeyView;

    open spec fn view(&self) -> GrantKeyView {
        GrantKeyView {
            grant_type: self.grant_type,
            namespace: opt_view(self.namespace),
            name: self.name@,
        }
    }
}

impl View for RBACGrant {
    type V = GrantView;

    open spec fn view(&self) -> GrantView {
        GrantView {
            grant_type: self.grant_type,
            namespace: opt_view(self.namespace),
            name: self.name@,
            permissions_id: self.permissions_id@,
        }
    }
}

impl View for GrantSubject {
    type V = SubjectView;

    open spec fn view(&self) -> SubjectView {
        SubjectView {
            kind: self.kind,
            name: self.name@,
            namespace: opt_view(self.namespace),
            api_group: self.api_group@,
        }
    }
}

impl View for SubjectRef {
    type V = SubjectRefView;

    open spec fn view(&self) -> SubjectRefView {
        SubjectRefView {
            kind: self.kind@,
            name: self.name@,
            namespace: opt_view(self.namespace),
            api_group: opt_view(self.api_group),
        }
    }
}

impl View for BindingResource {
    type V = BindingView;

    open spec fn view(&self) -> BindingView {
        BindingView {
            name: opt_view(self.name),
            namespace: opt_view(self.namespace),
            ref_kind: self.role_ref.kind@,
            ref_name: self.role_ref.name@,
            subjects: self.subjects@.map_values(|s: SubjectRef| s@),
        }
    }
}

impl View for PermissionResource {
    type V = PermissionView;

    open spec fn view(&self) -> PermissionView {
        PermissionView {
            name: opt_view(self.name),
            namespace: opt_view(self.namespace),
            rules: self.rules@,
        }
    }
}

// ---------------------------------------------------------------------------
// Equality and copies
// ---------------------------------------------------------------------------

pub fn str_equals(s: &String, lit: &str) -> (r: bool)
    ensures
        r == (s@ == lit@),
{
    let l = String::from_str(lit);
    *s == l
}

pub fn opt_string_eq(a: &Option<String>, b: &Option<String>) -> (r: bool)
    ensures
        r == (opt_view(*a) == opt_view(*b)),
{
    match (a, b) {
        (Some(x), Some(y)) => *x == *y,
        (None, None) => true,
        _ => false,
    }
}

pub fn opt_string_copy(a: &Option<String>) -> (r: Option<String>)
    ensures
        opt_view(r) == opt_view(*a),
{
    match a {
        Some(x) => Some(x.clone()),
        None => None,
    }
}

impl PartialEq for RBACId {
    fn eq(&self, other: &Self) -> bool {
        self.rbac_type == other.rbac_type && opt_string_eq(&self.namespace, &other.namespace)
            && self.name == other.name
    }
}

impl vstd::std_specs::cmp::PartialEqSpecImpl for RBACId {
    open spec fn obeys_eq_spec() -> bool {
        true
    }

    open spec fn eq_spec(&self, other: &RBACId) -> bool {
        self@ == other@
    }
}

impl PartialEq for GrantKey {
    fn eq(&self, other: &Self) -> bool {
        self.grant_type == other.grant_type && opt_string_eq(&self.namespace, &other.namespace)
            && self.name == other.name
    }
}

impl vstd::std_specs::cmp::PartialEqSpecImpl for GrantKey {
    open spec fn obeys_eq_spec() -> bool {
        true
    }

    open spec fn eq_spec(&self, other: &GrantKey) -> bool {
        self@ == other@
    }
}

impl PartialEq for RBACGrant {
    fn eq(&self, other: &Self) -> bool {
        self.grant_type == other.grant_type && opt_string_eq(&self.namespace, &other.namespace)
            && self.name == other.name && self.permissions_id == other.permissions_id
    }
}

impl vstd::std_specs::cmp::PartialEqSpecImpl for RBACGrant {
    open spec fn obeys_eq_spec() -> bool {
        true
    }

    open spec fn eq_spec(&self, other: &RBACGrant) -> bool {
        self@ == other@
    }
}

impl PartialEq for GrantSubject {
    fn eq(&self, other: &Self) -> bool {
        self.kind == other.kind && self.name == other.name && opt_string_eq(
            &self.namespace,
            &other.namespace,
        ) && self.api_group == other.api_group
    }
}

impl vstd::std_specs::cmp::PartialEqSpecImpl for GrantSubject {
    open spec fn obeys_eq_spec() -> bool {
        true
    }

    open spec fn eq_spec(&self, other: &GrantSubject) -> bool {
        self@ == other@
    }
}

impl RBACId {
    pub fn duplicate(&self) -> (r: RBACId)
        ensures
            r@ == self@,
    {
        RBACId {
            rbac_type: self.rbac_type,
            namespace: opt_string_copy(&self.namespace),
            name: self.name.clone(),
        }
    }
}

impl GrantKey {
    pub fn duplicate(&self) -> (r: GrantKey)
        ensures
            r@ == self@,
    {
        GrantKey {
            grant_type: self.grant_type,
            namespace: opt_string_copy(&self.namespace),
            name: self.name.clone(),
        }
    }
}

impl RBACGrant {
    pub fn duplicate(&self) -> (r: RBACGrant)
        ensures
            r@ == self@,
    {
        RBACGrant {
            grant_type: self.grant_type,
            namespace: opt_string_copy(&self.namespace),
            name: self.name.clone(),
            permissions_id: self.permissions_id.duplicate(),
        }
    }

    /// The identity of this grant, leaving out the permission set it refers to.
    pub fn key(&self) -> (r: GrantKey)
        ensures
            r@ == self@.key(),
    {
        GrantKey {
            grant_type: self.grant_type,
            namespace: opt_string_copy(&self.namespace),
            name: self.name.clone(),
        }
    }
}

impl GrantSubject {
    pub fn duplicate(&self) -> (r: GrantSubject)
        ensures
            r@ == self@,
    {
        GrantSubject {
            kind: self.kind,
            name: self.name.clone(),
            namespace: opt_string_copy(&self.namespace),
            api_group: self.api_group.clone(),
        }
    }
}

// ---------------------------------------------------------------------------
// Names of the kinds
// ---------------------------------------------------------------------------

impl GrantType {
    pub open spec fn spec_name(self) -> Seq<char> {
        match self {
            GrantType::RoleBinding => "RoleBinding"@,
            GrantType::ClusterRoleBinding => "ClusterRoleBinding"@,
        }
    }

    /// The name of the kind, as the cluster spells it.
    pub fn name(&self) -> (r: String)
        ensures
            r@ == self.spec_name(),
    {
        match self {
            GrantType::RoleBinding => String::from_str("RoleBinding"),
            GrantType::ClusterRoleBinding => String::from_str("ClusterRoleBinding"),
        }
    }
}

impl IDType {
    pub open spec fn spec_name(self) -> Seq<char> {
        match self {
            IDType::Role => "Role"@,
            IDType::ClusterRole => "ClusterRole"@,
        }
    }

    /// The name of the kind, as the cluster spells it.
    pub fn name(&self) -> (r: String)
        ensures
            r@ == self.spec_name(),
    {
        match self {
            IDType::Role => String::from_str("Role"),
            IDType::ClusterRole => String::from_str("ClusterRole"),
        }
    }
}

impl SubjectKind {
    pub open spec fn spec_name(self) -> Seq<char> {
        match self {
            SubjectKind::User => "User"@,
            SubjectKind::Group => "Group"@,
            SubjectKind::ServiceAccount => "ServiceAccount"@,
        }
    }

    /// The name of the kind, as the cluster spells it.
    pub fn name(&self) -> (r: String)
        ensures
            r@ == self.spec_name(),
    {
        match self {
            SubjectKind::User => String::from_str("User"),
            SubjectKind::Group => String::from_str("Group"),
            SubjectKind::ServiceAccount => String::from_str("ServiceAccount"),
        }
    }
}

// ---------------------------------------------------------------------------
// Normalization
// ---------------------------------------------------------------------------

/// The permission-set kind that a binding's `roleRef.kind` names, if it is one
/// of the two accepted spellings.
pub open spec fn ref_kind_spec(kind: Seq<char>) -> Option<IDType> {
    if kind == "Role"@ {
        Some(IDType::Role)
    } else if kind == "ClusterRole"@ {
        Some(IDType::ClusterRole)
    } else {
        None
    }
}

/// The grant a binding of the given type stands for. A permission set is
/// namespaced only when a role binding refers to a `Role`: whatever a
/// cluster-scoped binding or a `ClusterRole` reference says, the target is
/// cluster-scoped.
pub open spec fn grant_spec(grant_type: GrantType, b: BindingView) -> Result<
    GrantView,
    NormalizationError,
> {
    match b.name {
        None => Err(NormalizationError::MissingName),
        Some(name) => match ref_kind_spec(b.ref_kind) {
            None => Err(NormalizationError::UnknownReferenceKind),
            Some(kind) => Ok(
                GrantView {
                    grant_type,
                    namespace: b.namespace,
                    name,
                    permissions_id: IdView {
                        rbac_type: kind,
                        namespace: if kind == IDType::Role && grant_type == GrantType::RoleBinding {
                            b.namespace
                        } else {
                            None
                        },
                        name: b.ref_name,
                    },
                },
            ),
        },
    }
}

pub open spec fn subject_kind_spec(kind: Seq<char>) -> Option<SubjectKind> {
    if kind == "User"@ {
        Some(SubjectKind::User)
    } else if kind == "Group"@ {
        Some(SubjectKind::Group)
    } else if kind == "ServiceAccount"@ {
        Some(SubjectKind::ServiceAccount)
    } else {
        None
    }
}

/// The subject a binding's subject entry stands for. Only a service account
/// keeps its namespace; an absent api group becomes the empty string.
pub open spec fn subject_spec(r: SubjectRefView) -> Result<SubjectView, NormalizationError> {
    match subject_kind_spec(r.kind) {
        None => Err(NormalizationError::UnknownSubjectKind),
        Some(kind) => Ok(
            SubjectView {
                kind,
                name: r.name,
                namespace: if kind == SubjectKind::ServiceAccount {
                    r.namespace
                } else {
                    None
                },
                api_group: match r.api_group {
                    Some(g) => g,
                    None => empty_str(),
                },
            },
        ),
    }
}

/// The id of a role or cluster role; an absent name is the empty name.
pub open spec fn permission_id_spec(id_type: IDType, r: PermissionView) -> IdView {
    IdView {
        rbac_type: id_type,
        namespace: r.namespace,
        name: match r.name {
            Some(n) => n,
            None => empty_str(),
        },
    }
}

fn ref_kind(kind: &String) -> (r: Option<IDType>)
    ensures
        r == ref_kind_spec(kind@),
{
    if str_equals(kind, "Role") {
        Some(IDType::Role)
    } else if str_equals(kind, "ClusterRole") {
        Some(IDType::ClusterRole)
    } else {
        None
    }
}

fn subject_kind(kind: &String) -> (r: Option<SubjectKind>)
    ensures
        r == subject_kind_spec(kind@),
{
    if str_equals(kind, "User") {
        Some(SubjectKind::User)
    } else if str_equals(kind, "Group") {
        Some(SubjectKind::Group)
    } else if str_equals(kind, "ServiceAccount") {
        Some(SubjectKind::ServiceAccount)
    } else {
        None
    }
}

impl RBACId {
    /// The id of a permission set of the given kind.
    pub fn from_resource(id_type: IDType, resource: &PermissionResource) -> (r: RBACId)
        ensures
            r@ == permission_id_spec(id_type, resource@),
    {
        let name = match &resource.name {
            Some(n) => n.clone(),
            None => String::new(),
        };
        RBACId { rbac_type: id_type, namespace: opt_string_copy(&resource.namespace), name }
    }

    pub fn from_role(role: &PermissionResource) -> (r: RBACId)
        ensures
            r@ == permission_id_spec(IDType::Role, role@),
    {
        RBACId::from_resource(IDType::Role, role)
    }

    pub fn from_cluster_role(cluster_role: &PermissionResource) -> (r: RBACId)
        ensures
            r@ == permission_id_spec(IDType::ClusterRole, cluster_role@),
    {
        RBACId::from_resource(IDType::ClusterRole, cluster_role)
    }
}

impl RBACGrant {
    /// The grant that a binding of the given type stands for.
    pub fn from_binding(grant_type: GrantType, binding: &BindingResource) -> (r: Result<
        RBACGrant,
        NormalizationError,
    >)
        ensures
            view_result(r) == grant_spec(grant_type, binding@),
    {
        let name = match &binding.name {
            Some(n) => n.clone(),
            None => {
                return Err(NormalizationError::MissingName);
            },
        };
        let kind = match ref_kind(&binding.role_ref.kind) {
            Some(k) => k,
            None => {
                return Err(NormalizationError::UnknownReferenceKind);
            },
        };
        let target_namespace = match (kind, grant_type) {
            (IDType::Role, GrantType::RoleBinding) => opt_string_copy(&binding.namespace),
            _ => None,
        };
        Ok(
            RBACGrant {
                grant_type,
                namespace: opt_string_copy(&binding.namespace),
                name,
                permissions_id: RBACId {
                    rbac_type: kind,
                    namespace: target_namespace,
                    name: binding.role_ref.name.clone(),
                },
            },
        )
    }

    pub fn from_role_binding(role_binding: &BindingResource) -> (r: Result<
        RBACGrant,
        NormalizationError,
    >)
        ensures
            view_result(r) == grant_spec(GrantType::RoleBinding, role_binding@),
    {
        RBACGrant::from_binding(GrantType::RoleBinding, role_binding)
    }

    pub fn from_cluster_role_binding(binding: &BindingResource) -> (r: Result<
        RBACGrant,
        NormalizationError,
    >)
        ensures
            view_result(r) == grant_spec(GrantType::ClusterRoleBinding, binding@),
    {
        RBACGrant::from_binding(GrantType::ClusterRoleBinding, binding)
    }
}

impl GrantSubject {
    pub fn from_subject(subject: &SubjectRef) -> (r: Result<GrantSubject, NormalizationError>)
        ensures
            view_result(r) == subject_spec(subject@),
    {
        let kind = match subject_kind(&subject.kind) {
            Some(k) => k,
            None => {
                return Err(NormalizationError::UnknownSubjectKind);
            },
        };
        let namespace = match kind {
            SubjectKind::ServiceAccount => opt_string_copy(&subject.namespace),
            _ => None,
        };
        let api_group = match &subject.api_group {
            Some(g) => g.clone(),
            None => String::new(),
        };
        Ok(GrantSubject { kind, name: subject.name.clone(), namespace, api_group })
    }
}

} // verus!
