//! What a caller sends to ask about a subject, and the namespace filter.

use vstd::prelude::*;
use vstd::string::*;
use crate::rbac_grant::{GrantSubject, GrantView, RBACGrant, SubjectKind, SubjectView, opt_view};

verus! {

/// A subject as a caller names it, with an optional filter.
#[derive(Clone, Debug)]
pub struct GrantInput {
    pub name: String,
    pub namespace: Option<String>,
    pub user_type: UserType,
    pub filter: Option<Filter>,
}

/// Restricts a query to the grants that apply in one namespace.
#[derive(Clone, Debug)]
pub struct Filter {
    pub namespace: Option<String>,
}

#[derive(Clone, Copy, Debug, PartialEq, Eq, Structural)]
pub enum UserType {
    ServiceAccount,
    User,
    Group,
}

/// A grant as reported to a caller: its kind and name.
#[derive(Clone, Debug)]
pub struct OutputGrant {
    /// kind of the grant, the name of a `GrantType`
    pub kind: String,
    pub name: String,
}

/// The api group of human users and groups.
pub open spec fn human_api_group() -> Seq<char> {
    "rbac.authorization.k8s.io"@
}

/// The subject a caller means. Users and groups belong to the human api
/// group and have no namespace; a service account keeps its namespace and has
/// the empty api group.
pub open spec fn input_subject_spec(
    name: Seq<char>,
    namespace: Option<Seq<char>>,
    user_type: UserType,
) -> SubjectView {
    match user_type {
        UserType::User => SubjectView {
            kind: SubjectKind::User,
            name,
            namespace: None,
            api_group: human_api_group(),
        },
        UserType::Group => SubjectView {
            kind: SubjectKind::Group,
            name,
            namespace: None,
            api_group: human_api_group(),
        },
        UserType::ServiceAccount => SubjectView {
            kind: SubjectKind::ServiceAccount,
            name,
            namespace,
            api_group: Seq::<char>::empty(),
        },
    }
}

/// A grant passes a filter when the filter names no namespace, when the grant
/// is cluster-wide, or when the two namespaces are equal.
pub open spec fn filter_passes(g: GrantView, filter_namespace: Option<Seq<char>>) -> bool {
    match filter_namespace {
        None => true,
        Some(ns) => match g.namespace {
            None => true,
            Some(gns) => gns == ns,
        },
    }
}

impl GrantInput {
    pub fn to_grant_subject(self) -> (r: GrantSubject)
        ensures
            r@ == input_subject_spec(self.name@, opt_view(self.namespace), self.user_type),
    {
        let (kind, namespace, api_group) = match self.user_type {
            UserType::User => (
                SubjectKind::User,
                None,
                String::from_str("rbac.authorization.k8s.io"),
            ),
            UserType::Group => (
                SubjectKind::Group,
                None,
                String::from_str("rbac.authorization.k8s.io"),
            ),
            UserType::ServiceAccount => (
                SubjectKind::ServiceAccount,
                self.namespace,
                String::new(),
            ),
        };
        GrantSubject { name: self.name, namespace, kind, api_group }
    }
}

pub fn grant_filter_applies(grant: &RBACGrant, filter: &Filter) -> (r: bool)
    ensures
        r == filter_passes(grant@, opt_view(filter.namespace)),
{
    match &filter.namespace {
        Some(filter_ns) => match &grant.namespace {
            Some(grant_ns) => *filter_ns == *grant_ns,
            // cluster-wide grants apply in every namespace
            None => true,
        },
        None => true,
    }
}

} // verus!
