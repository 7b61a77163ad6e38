//! Permission rules are carried verbatim from the cluster's `Role` and
//! `ClusterRole` objects: the index never looks inside them.

use vstd::prelude::*;

verus! {

/// `k8s_openapi`'s policy rule, held as an opaque value.
#[verifier::external_type_specification]
#[verifier::external_body]
pub struct ExPolicyRule(k8s_openapi::api::rbac::v1::PolicyRule);

/// Relies on the `Clone` that `k8s_openapi` derives for `PolicyRule`: its
/// fields are `Vec<String>` and `Option<Vec<String>>`, so the copy equals the
/// original.
pub assume_specification[ <k8s_openapi::api::rbac::v1::PolicyRule as Clone>::clone ](
    r: &k8s_openapi::api::rbac::v1::PolicyRule,
) -> (res: k8s_openapi::api::rbac::v1::PolicyRule)
    ensures
        res == *r,
;

} // verus!
