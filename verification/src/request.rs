//! Lock classes and requests.

use vstd::prelude::*;
use vstd::string::*;

use crate::path::LockPath;
use crate::policy::PathSecurityPolicy;

verus! {

/// A deterministic lock hierarchy used when acquiring a set of locks.
#[derive(Debug, Clone, Copy, PartialEq, Eq, Hash, Structural)]
pub enum LockClass {
    ProjectMutation,
    Refs,
    Artifact,
    Build,
    Custom(u16),
}

impl LockClass {
    /// Position of the class in the hierarchy; lower ranks come first.
    pub open spec fn spec_rank(self) -> u16 {
        match self {
            LockClass::ProjectMutation => 10,
            LockClass::Refs => 20,
            LockClass::Artifact => 30,
            LockClass::Build => 40,
            LockClass::Custom(rank) => rank,
        }
    }

    pub fn rank(self) -> (rank: u16)
        ensures
            rank == self.spec_rank(),
            forall|number: u16| self == LockClass::Custom(number) ==> rank == number,
    {
        match self {
            LockClass::ProjectMutation => 10,
            LockClass::Refs => 20,
            LockClass::Artifact => 30,
            LockClass::Build => 40,
            LockClass::Custom(rank) => rank,
        }
    }
}

/// How a request behaves when the same process already owns or is waiting for
/// the same canonical lock identity.
#[derive(Debug, Clone, Copy, PartialEq, Eq, Structural)]
pub enum SameProcessPolicy {
    /// Fail before entering a kernel wait. This is the safe default and avoids
    /// accidental self-deadlock in synchronous code.
    Reject,
    /// Let the operating system queue the independent descriptor request.
    /// Use this only when separate tasks in one process intentionally contend.
    Queue,
}

/// Mathematical form of a request.
pub struct RequestView {
    pub path: Seq<u8>,
    pub operation: Seq<char>,
    pub class: LockClass,
    pub same_process_policy: SameProcessPolicy,
    pub path_security: PathSecurityPolicy,
}

/// Description of one exclusive local lock request.
#[derive(Debug)]
pub struct LockRequest {
    path: LockPath,
    operation: String,
    class: LockClass,
    same_process_policy: SameProcessPolicy,
    path_security: PathSecurityPolicy,
}

impl View for LockRequest {
    type V = RequestView;

    closed spec fn view(&self) -> RequestView {
        RequestView {
            path: self.path@,
            operation: self.operation@,
            class: self.class,
            same_process_policy: self.same_process_policy,
            path_security: self.path_security,
        }
    }
}

impl Clone for LockRequest {
    fn clone(&self) -> (copy: Self)
        ensures
            copy@ == self@,
    {
        LockRequest {
            path: self.path.clone(),
            operation: self.operation.clone(),
            class: self.class,
            same_process_policy: self.same_process_policy,
            path_security: self.path_security,
        }
    }
}

/// What a request for a path is before anything else is said about it.
pub open spec fn default_request(path: Seq<u8>) -> RequestView {
    RequestView {
        path,
        operation: "exclusive lock"@,
        class: LockClass::Custom(100),
        same_process_policy: SameProcessPolicy::Reject,
        path_security: PathSecurityPolicy::Private,
    }
}

impl LockRequest {
    pub fn exclusive(path: LockPath) -> (request: Self)
        ensures
            request@ == default_request(path@),
    {
        LockRequest {
            path,
            operation: "exclusive lock".to_owned(),
            class: LockClass::Custom(100),
            same_process_policy: SameProcessPolicy::Reject,
            path_security: PathSecurityPolicy::Private,
        }
    }

    pub fn operation(self, operation: &str) -> (request: Self)
        ensures
            request@ == (RequestView { operation: operation@, ..self@ }),
    {
        let mut request = self;
        request.operation = operation.to_owned();
        request
    }

    pub fn class(self, class: LockClass) -> (request: Self)
        ensures
            request@ == (RequestView { class, ..self@ }),
    {
        let mut request = self;
        request.class = class;
        request
    }

    pub fn same_process_policy(self, policy: SameProcessPolicy) -> (request: Self)
        ensures
            request@ == (RequestView { same_process_policy: policy, ..self@ }),
    {
        let mut request = self;
        request.same_process_policy = policy;
        request
    }

    pub fn queue_same_process(self) -> (request: Self)
        ensures
            request@ == (RequestView { same_process_policy: SameProcessPolicy::Queue, ..self@ }),
    {
        self.same_process_policy(SameProcessPolicy::Queue)
    }

    /// Allow group and other permission bits on the rendezvous.
    pub fn shared_path(self) -> (request: Self)
        ensures
            request@ == (RequestView { path_security: PathSecurityPolicy::Shared, ..self@ }),
    {
        let mut request = self;
        request.path_security = PathSecurityPolicy::Shared;
        request
    }

    /// The same request for the canonical identity of its path.
    pub fn at_identity(self, identity: LockPath) -> (request: Self)
        ensures
            request@ == (RequestView { path: identity@, ..self@ }),
    {
        let mut request = self;
        request.path = identity;
        request
    }

    pub fn path(&self) -> (path: &LockPath)
        ensures
            path@ == self@.path,
    {
        &self.path
    }

    pub fn operation_name(&self) -> (operation: &str)
        ensures
            operation@ == self@.operation,
    {
        self.operation.as_str()
    }

    pub fn lock_class(&self) -> (class: LockClass)
        ensures
            class == self@.class,
    {
        self.class
    }

    pub fn reentry_policy(&self) -> (policy: SameProcessPolicy)
        ensures
            policy == self@.same_process_policy,
    {
        self.same_process_policy
    }

    pub fn path_security(&self) -> (policy: PathSecurityPolicy)
        ensures
            policy == self@.path_security,
    {
        self.path_security
    }
}

/// The rank of a custom class is the number it was given, and the named classes
/// stand at 10, 20, 30 and 40 among the numbers.
pub proof fn law_class_ranks_are_numbers(number: u16)
    ensures
        LockClass::Custom(number).spec_rank() == number,
        LockClass::ProjectMutation.spec_rank() == 10,
        LockClass::Refs.spec_rank() == 20,
        LockClass::Artifact.spec_rank() == 30,
        LockClass::Build.spec_rank() == 40,
{
}

/// Custom classes are ordered exactly as their numbers are, and different
/// numbers never tie.
pub proof fn law_custom_classes_follow_their_numbers(a: u16, b: u16)
    ensures
        LockClass::Custom(a).spec_rank() < LockClass::Custom(b).spec_rank() <==> a < b,
        LockClass::Custom(a).spec_rank() == LockClass::Custom(b).spec_rank() <==> a == b,
{
}

/// A request starts with the path it is for, rejects reentry and asks for a
/// private rendezvous.
pub proof fn law_requests_start_rejecting_and_private(path: Seq<u8>)
    ensures
        default_request(path).path == path,
        default_request(path).operation == "exclusive lock"@,
        default_request(path).class == LockClass::Custom(100),
        default_request(path).same_process_policy is Reject,
        default_request(path).path_security is Private,
{
}

} // verus!
