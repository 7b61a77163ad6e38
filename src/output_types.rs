//! The shapes in which the index is reported to callers, kept apart from the
//! internal types.

use vstd::prelude::*;
use vstd::string::*;
use crate::rbac_grant::{GrantSubject, GrantView, IdView, RBACGrant, RBACId, SubjectView, empty_str};
use crate::grant_controller::{GrantController, capped};
use crate::permission_controller::PermissionController;

verus! {

/// The reported form of an `RBACGrant`.
#[derive(Clone, Debug)]
pub struct OutputGrant {
    pub grant_type: String,
    pub namespace: String,
    pub name: String,
    pub rbac_id: OutputId,
}

/// The reported form of an `RBACId`.
#[derive(Clone, Debug)]
pub struct OutputId {
    pub name: String,
    pub namespace: String,
    pub rbac_type: String,
}

/// The reported form of a `GrantSubject`.
#[derive(Clone, Debug)]
pub struct OutputSubject {
    pub api_group: String,
    pub kind: String,
    pub name: String,
    pub namespace: String,
}

/// One subject with its grants.
#[derive(Clone, Debug)]
pub struct OutputSubjectGrant {
    pub subject: OutputSubject,
    pub grants: Vec<OutputGrant>,
}

/// The whole index.
#[derive(Clone, Debug)]
pub struct OutputAll {
    pub subject_grants: Vec<OutputSubjectGrant>,
}

/// How much the index and the cache hold.
#[derive(Clone, Copy, Debug)]
pub struct HealthCheck {
    pub num_grants: usize,
    pub num_permissions: usize,
}

pub struct OutputIdView {
    pub name: Seq<char>,
    pub namespace: Seq<char>,
    pub rbac_type: Seq<char>,
}

pub struct OutputGrantView {
    pub grant_type: Seq<char>,
    pub namespace: Seq<char>,
    pub name: Seq<char>,
    pub rbac_id: OutputIdView,
}

pub struct OutputSubjectView {
    pub api_group: Seq<char>,
    pub kind: Seq<char>,
    pub name: Seq<char>,
    pub namespace: Seq<char>,
}

pub struct OutputSubjectGrantView {
    pub subject: OutputSubjectView,
    pub grants: Seq<OutputGrantView>,
}

impl View for OutputId {
    type V = OutputIdView;

    open spec fn view(&self) -> OutputIdView {
        OutputIdView { name: self.name@, namespace: self.namespace@, rbac_type: self.rbac_type@ }
    }
}

impl View for OutputGrant {
    type V = OutputGrantView;

    open spec fn view(&self) -> OutputGrantView {
        OutputGrantView {
            grant_type: self.grant_type@,
            namespace: self.namespace@,
            name: self.name@,
            rbac_id: self.rbac_id@,
        }
    }
}

impl View for OutputSubject {
    type V = OutputSubjectView;

    open spec fn view(&self) -> OutputSubjectView {
        OutputSubjectView {
            api_group: self.api_group@,
            kind: self.kind@,
            name: self.name@,
            namespace: self.namespace@,
        }
    }
}

impl View for OutputSubjectGrant {
    type V = OutputSubjectGrantView;

    open spec fn view(&self) -> OutputSubjectGrantView {
        OutputSubjectGrantView {
            subject: self.subject@,
            grants: self.grants@.map_values(|g: OutputGrant| g@),
        }
    }
}

/// The reported id: an absent namespace is reported as the empty string.
pub open spec fn output_id_spec(id: IdView) -> OutputIdView {
    OutputIdView {
        name: id.name,
        namespace: match id.namespace {
            Some(ns) => ns,
            None => empty_str(),
        },
        rbac_type: id.rbac_type.spec_name(),
    }
}

/// The reported grant: a cluster-wide grant is reported in namespace `*`.
pub open spec fn output_grant_spec(g: GrantView) -> OutputGrantView {
    OutputGrantView {
        grant_type: g.grant_type.spec_name(),
        namespace: match g.namespace {
            Some(ns) => ns,
            None => "*"@,
        },
        name: g.name,
        rbac_id: output_id_spec(g.permissions_id),
    }
}

/// The reported subject: an absent namespace is reported as the empty string.
pub open spec fn output_subject_spec(s: SubjectView) -> OutputSubjectView {
    OutputSubjectView {
        api_group: s.api_group,
        kind: s.kind.spec_name(),
        name: s.name,
        namespace: match s.namespace {
            Some(ns) => ns,
            None => empty_str(),
        },
    }
}

impl HealthCheck {
    /// The number of associations in the index and of cached permission sets.
    pub fn new(grants: &GrantController, permissions: &PermissionController) -> (r: HealthCheck)
        requires
            grants.wf(),
            permissions.wf(),
        ensures
            r.num_grants as int == capped(grants@.pairs().len() as int),
            r.num_permissions == permissions@.dom().len(),
    {
        HealthCheck { num_grants: grants.grant_counts(), num_permissions: permissions.len() }
    }
}

impl OutputGrant {
    pub fn from_rbac_grant(grant: RBACGrant) -> (r: OutputGrant)
        ensures
            r@ == output_grant_spec(grant@),
    {
        let namespace = match grant.namespace {
            Some(ns) => ns,
            None => String::from_str("*"),
        };
        OutputGrant {
            grant_type: grant.grant_type.name(),
            namespace,
            name: grant.name,
            rbac_id: OutputId::from_rbac_id(grant.permissions_id),
        }
    }
}

impl OutputId {
    pub fn from_rbac_id(id: RBACId) -> (r: OutputId)
        ensures
            r@ == output_id_spec(id@),
    {
        let namespace = match id.namespace {
            Some(ns) => ns,
            None => String::new(),
        };
        OutputId { name: id.name, namespace, rbac_type: id.rbac_type.name() }
    }
}

impl OutputSubject {
    pub fn from_grant_subject(subject: GrantSubject) -> (r: OutputSubject)
        ensures
            r@ == output_subject_spec(subject@),
    {
        let namespace = match subject.namespace {
            Some(ns) => ns,
            None => String::new(),
        };
        OutputSubject {
            api_group: subject.api_group,
            kind: subject.kind.name(),
            name: subject.name,
            namespace,
        }
    }
}

impl OutputAll {
    /// The reported form of a snapshot of the index, entry for entry.
    pub fn from_grants(grants: Vec<(GrantSubject, Vec<RBACGrant>)>) -> (r: OutputAll)
        ensures
            r.subject_grants@.len() == grants@.len(),
            forall|i: int|
                0 <= i < grants@.len() ==> (#[trigger] r.subject_grants@[i])@ == (
                OutputSubjectGrantView {
                    subject: output_subject_spec(grants@[i].0@),
                    grants: grants@[i].1@.map_values(|g: RBACGrant| output_grant_spec(g@)),
                }),
    {
        let ghost input = grants@;
        let mut subject_grants: Vec<OutputSubjectGrant> = Vec::new();
        let mut rest = grants;
        // the entries are taken from the back and put back in order at the end
        let mut reversed: Vec<OutputSubjectGrant> = Vec::new();
        while rest.len() > 0
            invariant
                rest@ == input.take(rest@.len() as int),
                rest@.len() + reversed@.len() == input.len(),
                forall|j: int|
                    0 <= j < reversed@.len() ==> (#[trigger] reversed@[j])@ == (
                    OutputSubjectGrantView {
                        subject: output_subject_spec(input[input.len() - 1 - j].0@),
                        grants: input[input.len() - 1 - j].1@.map_values(
                            |g: RBACGrant| output_grant_spec(g@),
                        ),
                    }),
            decreases rest@.len(),
        {
            let ghost before = rest@;
            match rest.pop() {
                Some((subject, subject_grants_in)) => {
                    assert(before.last() == input[before.len() - 1]);
                    assert(rest@ =~= input.take(rest@.len() as int));
                    let out_subject = OutputSubject::from_grant_subject(subject);
                    let out_grants = output_grants(subject_grants_in);
                    let ghost prev = reversed@;
                    reversed.push(OutputSubjectGrant { subject: out_subject, grants: out_grants });
                    assert forall|j: int| 0 <= j < prev.len() implies reversed@[j] == prev[j] by {}
                },
                None => {},
            }
        }
        while reversed.len() > 0
            invariant
                subject_grants@.len() + reversed@.len() == input.len(),
                forall|j: int|
                    0 <= j < reversed@.len() ==> (#[trigger] reversed@[j])@ == (
                    OutputSubjectGrantView {
                        subject: output_subject_spec(input[input.len() - 1 - j].0@),
                        grants: input[input.len() - 1 - j].1@.map_values(
                            |g: RBACGrant| output_grant_spec(g@),
                        ),
                    }),
                forall|i: int|
                    0 <= i < subject_grants@.len() ==> (#[trigger] subject_grants@[i])@ == (
                    OutputSubjectGrantView {
                        subject: output_subject_spec(input[i].0@),
                        grants: input[i].1@.map_values(|g: RBACGrant| output_grant_spec(g@)),
                    }),
            decreases reversed@.len(),
        {
            let ghost before = reversed@;
            let ghost prev = subject_grants@;
            match reversed.pop() {
                Some(e) => {
                    assert(e == before[before.len() - 1]);
                    subject_grants.push(e);
                    assert forall|i: int| 0 <= i < prev.len() implies subject_grants@[i] == prev[i] by {}
                    assert forall|j: int| 0 <= j < reversed@.len() implies reversed@[j] == before[j] by {}
                },
                None => {},
            }
        }
        OutputAll { subject_grants }
    }
}

/// The reported form of each grant, in order.
fn output_grants(grants: Vec<RBACGrant>) -> (r: Vec<OutputGrant>)
    ensures
        r@.map_values(|g: OutputGrant| g@) == grants@.map_values(|g: RBACGrant| output_grant_spec(g@)),
{
    let ghost input = grants@;
    let mut rest = grants;
    let mut reversed: Vec<OutputGrant> = Vec::new();
    while rest.len() > 0
        invariant
            rest@ == input.take(rest@.len() as int),
            rest@.len() + reversed@.len() == input.len(),
            forall|j: int|
                0 <= j < reversed@.len() ==> (#[trigger] reversed@[j])@ == output_grant_spec(
                    input[input.len() - 1 - j]@,
                ),
        decreases rest@.len(),
    {
        let ghost before = rest@;
        match rest.pop() {
            Some(g) => {
                assert(before.last() == input[before.len() - 1]);
                assert(rest@ =~= input.take(rest@.len() as int));
                let ghost prev = reversed@;
                reversed.push(OutputGrant::from_rbac_grant(g));
                assert forall|j: int| 0 <= j < prev.len() implies reversed@[j] == prev[j] by {}
            },
            None => {},
        }
    }
    let mut r: Vec<OutputGrant> = Vec::new();
    while reversed.len() > 0
        invariant
            r@.len() + reversed@.len() == input.len(),
            forall|j: int|
                0 <= j < reversed@.len() ==> (#[trigger] reversed@[j])@ == output_grant_spec(
                    input[input.len() - 1 - j]@,
                ),
            forall|i: int| 0 <= i < r@.len() ==> (#[trigger] r@[i])@ == output_grant_spec(input[i]@),
        decreases reversed@.len(),
    {
        let ghost before = reversed@;
        let ghost prev = r@;
        match reversed.pop() {
            Some(g) => {
                assert(g == before[before.len() - 1]);
                r.push(g);
                assert forall|i: int| 0 <= i < prev.len() implies r@[i] == prev[i] by {}
                assert forall|j: int| 0 <= j < reversed@.len() implies reversed@[j] == before[j] by {}
            },
            None => {},
        }
    }
    assert(r@.map_values(|g: OutputGrant| g@) =~= input.map_values(
        |g: RBACGrant| output_grant_spec(g@),
    ));
    r
}

} // verus!
