//! Opening a lock file so that nobody can substitute it.
//!
//! Every file-system call is made outside. An opening is a chain of steps: each
//! step says which call comes next, and takes the answer to give the next step
//! or the reason for refusing. The file is handed out only at the end of the
//! chain, after every check that the policy asks for.

use vstd::prelude::*;

use crate::error::{IoErrorKind, IoFailure, IoStep, LockError};
#[allow(unused_imports)]
use crate::guard::optional_path;
use crate::path::{LockPath, Platform};
#[allow(unused_imports)]
use crate::path::{has_parent_component, law_parent_is_a_shorter_beginning, parent_path};
use crate::policy::{FinalComponentOpenIntent, PathSecurityPolicy};
#[allow(unused_imports)]
use crate::policy::{control_protects, private_dir_mode, private_file_mode};
use crate::request::LockRequest;
#[allow(unused_imports)]
use crate::request::RequestView;
#[allow(unused_imports)]
use crate::sddl::{same_dacl_aces, user_private};
use crate::vetting::{
    check_ancestor, harden_lock_root_permissions, map_substitution_error,
    refuse_parent_dir_components, require_protected_user_private_dacl, require_user_private_dacl,
    validate_existing_lock_directory, validate_opened_lock_file, DaclFacts, DirectoryList, EntryFacts,
    HostFacts, LOCK_DIRECTORY_MODE, LOCK_FILE_MODE,
};
#[allow(unused_imports)]
use crate::vetting::{
    ancestor_fault, call_failed, dacl_is_exact, dacl_matters, directory_fault, file_fault,
    law_ancestors_have_to_be_real_directories, law_open_directories_let_others_in,
    law_other_platforms_look_at_the_kind, law_private_policy_accepts_what_only_the_user_can_touch,
    law_shared_policy_accepts_what_the_user_owns, law_windows_refuses_reparse_points, open_error,
    root_is_open,
};

verus! {

/// What an opening is about, and what has been found so far.
#[derive(Debug)]
pub struct OpenPlan {
    path: LockPath,
    parent: Option<LockPath>,
    policy: PathSecurityPolicy,
    host: HostFacts,
    harden: bool,
    parent_facts: Option<EntryFacts>,
    parent_dacl_private: bool,
    hardened: bool,
    sealed: bool,
    file_facts: Option<EntryFacts>,
    file_dacl_exact: bool,
}

/// Mathematical form of a plan.
pub struct PlanView {
    pub path: Seq<u8>,
    /// Directory of the lock file, where it has one of its own.
    pub parent: Option<Seq<u8>>,
    pub policy: PathSecurityPolicy,
    pub host: HostFacts,
    /// Whether an accepted directory is made inaccessible to group and others.
    pub harden: bool,
    pub parent_facts: Option<EntryFacts>,
    pub parent_dacl_private: bool,
    pub hardened: bool,
    /// Whether child processes cannot inherit the Windows handle.
    pub sealed: bool,
    pub file_facts: Option<EntryFacts>,
    pub file_dacl_exact: bool,
}

impl View for OpenPlan {
    type V = PlanView;

    closed spec fn view(&self) -> PlanView {
        PlanView {
            path: self.path@,
            parent: optional_path(self.parent),
            policy: self.policy,
            host: self.host,
            harden: self.harden,
            parent_facts: self.parent_facts,
            parent_dacl_private: self.parent_dacl_private,
            hardened: self.hardened,
            sealed: self.sealed,
            file_facts: self.file_facts,
            file_dacl_exact: self.file_dacl_exact,
        }
    }
}

impl OpenPlan {
    pub fn path(&self) -> (path: &LockPath)
        ensures
            path@ == self@.path,
    {
        &self.path
    }

    /// Directory of the lock file; the lock path itself where it has none.
    pub fn parent(&self) -> (parent: &LockPath)
        ensures
            parent@ == directory_of(self@),
    {
        match &self.parent {
            Some(parent) => parent,
            None => &self.path,
        }
    }
}

/// Directory of the lock file; the lock path itself where it has none.
pub open spec fn directory_of(plan: PlanView) -> Seq<u8> {
    match plan.parent {
        Some(parent) => parent,
        None => plan.path,
    }
}

/// A plan about which nothing has been found yet.
pub open spec fn fresh_plan(
    path: Seq<u8>,
    policy: PathSecurityPolicy,
    host: HostFacts,
    harden: bool,
) -> PlanView {
    PlanView {
        path,
        parent: lock_directory(host.platform, path),
        policy,
        host,
        harden,
        parent_facts: None,
        parent_dacl_private: false,
        hardened: false,
        sealed: false,
        file_facts: None,
        file_dacl_exact: false,
    }
}

/// The calls that make one lock directory.
#[derive(Debug, Clone, Copy, PartialEq, Eq, Structural)]
pub enum DirectoryStage {
    /// Make the directory, owner-only on Unix.
    Create,
    /// Open it without following a symbolic link.
    OpenNoFollow,
    /// Read its permissions through the descriptor.
    Stat,
    /// Set them to owner-only through the descriptor.
    Restrict,
    /// Give it the private access-control list.
    ApplyDacl,
}

/// How the final component is tried.
#[derive(Debug, Clone, Copy, PartialEq, Eq, Structural)]
pub enum OpenAttempt {
    /// Open the file that is there, without following it.
    Existing,
    /// Create it, failing where it appeared meanwhile.
    CreateExclusive,
}

/// The calls that make a created lock file private.
#[derive(Debug, Clone, Copy, PartialEq, Eq, Structural)]
pub enum TightenStage {
    Stat,
    Restrict,
    ApplyDacl,
}

/// Inspect an ancestor of the lock file; collect those that are missing.
#[derive(Debug)]
pub struct ParentWalk {
    plan: OpenPlan,
    missing: Vec<LockPath>,
    cursor: LockPath,
}

/// Make a directory, with others left to make inside it.
#[derive(Debug)]
pub struct DirectoryCreation {
    plan: OpenPlan,
    queue: Vec<LockPath>,
    directory: LockPath,
    stage: DirectoryStage,
}

/// Read back the access-control list of a directory that was made.
#[derive(Debug)]
pub struct DirectoryDaclCheck {
    plan: OpenPlan,
    queue: Vec<LockPath>,
    directory: LockPath,
}

/// Inspect the directory of the lock file.
#[derive(Debug)]
pub struct ParentCheck {
    plan: OpenPlan,
}

/// Read the access-control list of the directory.
#[derive(Debug)]
pub struct ParentDaclCheck {
    plan: OpenPlan,
}

/// Set the directory's mode.
#[derive(Debug)]
pub struct ParentHardening {
    plan: OpenPlan,
}

/// Open or create the lock file.
#[derive(Debug)]
pub struct FinalOpen {
    plan: OpenPlan,
    attempt: OpenAttempt,
}

/// Keep child processes from inheriting the opened handle.
#[derive(Debug)]
pub struct HandleSealing {
    plan: OpenPlan,
    attempt: OpenAttempt,
}

/// Make a created lock file private.
#[derive(Debug)]
pub struct FileTightening {
    plan: OpenPlan,
    stage: TightenStage,
}

/// Inspect the opened lock file.
#[derive(Debug)]
pub struct FileCheck {
    plan: OpenPlan,
}

/// Give the opened lock file the private access-control list.
#[derive(Debug)]
pub struct FileDaclTightening {
    plan: OpenPlan,
}

/// Read back the access-control list of the lock file.
#[derive(Debug)]
pub struct FileDaclCheck {
    plan: OpenPlan,
}

/// Resolve the canonical identity of the lock file.
#[derive(Debug)]
pub struct Canonicalization {
    plan: OpenPlan,
}

/// A lock file that passed every check.
#[derive(Debug)]
pub struct OpenedRendezvous {
    plan: OpenPlan,
    identity: LockPath,
}

/// The next call of an opening.
#[derive(Debug)]
pub enum OpenStep {
    InspectAncestor(ParentWalk),
    CreateDirectory(DirectoryCreation),
    VerifyDirectoryDacl(DirectoryDaclCheck),
    CheckParent(ParentCheck),
    CheckParentDacl(ParentDaclCheck),
    HardenParent(ParentHardening),
    OpenFinal(FinalOpen),
    SealHandle(HandleSealing),
    Tighten(FileTightening),
    CheckFile(FileCheck),
    ApplyFileDacl(FileDaclTightening),
    CheckFileDacl(FileDaclCheck),
    Canonicalize(Canonicalization),
    Opened(OpenedRendezvous),
}

/// Mathematical form of a step.
#[allow(inconsistent_fields)]
pub enum StepView {
    InspectAncestor { plan: PlanView, missing: Seq<Seq<u8>>, cursor: Seq<u8> },
    CreateDirectory {
        plan: PlanView,
        queue: Seq<Seq<u8>>,
        directory: Seq<u8>,
        stage: DirectoryStage,
    },
    VerifyDirectoryDacl { plan: PlanView, queue: Seq<Seq<u8>>, directory: Seq<u8> },
    CheckParent { plan: PlanView },
    CheckParentDacl { plan: PlanView },
    HardenParent { plan: PlanView },
    OpenFinal { plan: PlanView, attempt: OpenAttempt },
    SealHandle { plan: PlanView, attempt: OpenAttempt },
    Tighten { plan: PlanView, stage: TightenStage },
    CheckFile { plan: PlanView },
    ApplyFileDacl { plan: PlanView },
    CheckFileDacl { plan: PlanView },
    Canonicalize { plan: PlanView },
    Opened { plan: PlanView, identity: Seq<u8> },
}

/// Views of several paths.
pub open spec fn path_views(paths: Seq<LockPath>) -> Seq<Seq<u8>> {
    paths.map_values(|path: LockPath| path@)
}

impl ParentWalk {
    #[verifier::type_invariant]
    spec fn is_vetted(&self) -> bool {
        vetted(self@)
    }

    pub closed spec fn spec_plan(&self) -> PlanView {
        self.plan@
    }

    pub closed spec fn spec_missing(&self) -> Seq<Seq<u8>> {
        path_views(self.missing@)
    }

    pub closed spec fn spec_cursor(&self) -> Seq<u8> {
        self.cursor@
    }
}

impl View for ParentWalk {
    type V = StepView;

    open spec fn view(&self) -> StepView {
        StepView::InspectAncestor {
            plan: self.spec_plan(),
            missing: self.spec_missing(),
            cursor: self.spec_cursor(),
        }
    }
}

impl DirectoryCreation {
    #[verifier::type_invariant]
    spec fn is_vetted(&self) -> bool {
        vetted(self@)
    }

    pub closed spec fn spec_plan(&self) -> PlanView {
        self.plan@
    }

    pub closed spec fn spec_queue(&self) -> Seq<Seq<u8>> {
        path_views(self.queue@)
    }

    pub closed spec fn spec_directory(&self) -> Seq<u8> {
        self.directory@
    }

    pub closed spec fn spec_stage(&self) -> DirectoryStage {
        self.stage
    }
}

impl View for DirectoryCreation {
    type V = StepView;

    open spec fn view(&self) -> StepView {
        StepView::CreateDirectory {
            plan: self.spec_plan(),
            queue: self.spec_queue(),
            directory: self.spec_directory(),
            stage: self.spec_stage(),
        }
    }
}

impl DirectoryDaclCheck {
    #[verifier::type_invariant]
    spec fn is_vetted(&self) -> bool {
        vetted(self@)
    }

    pub closed spec fn spec_plan(&self) -> PlanView {
        self.plan@
    }

    pub closed spec fn spec_queue(&self) -> Seq<Seq<u8>> {
        path_views(self.queue@)
    }

    pub closed spec fn spec_directory(&self) -> Seq<u8> {
        self.directory@
    }
}

impl View for DirectoryDaclCheck {
    type V = StepView;

    open spec fn view(&self) -> StepView {
        StepView::VerifyDirectoryDacl {
            plan: self.spec_plan(),
            queue: self.spec_queue(),
            directory: self.spec_directory(),
        }
    }
}

impl ParentCheck {
    #[verifier::type_invariant]
    spec fn is_vetted(&self) -> bool {
        vetted(self@)
    }

    pub closed spec fn spec_plan(&self) -> PlanView {
        self.plan@
    }
}

impl View for ParentCheck {
    type V = StepView;

    open spec fn view(&self) -> StepView {
        StepView::CheckParent { plan: self.spec_plan() }
    }
}

impl ParentDaclCheck {
    #[verifier::type_invariant]
    spec fn is_vetted(&self) -> bool {
        vetted(self@)
    }

    pub closed spec fn spec_plan(&self) -> PlanView {
        self.plan@
    }
}

impl View for ParentDaclCheck {
    type V = StepView;

    open spec fn view(&self) -> StepView {
        StepView::CheckParentDacl { plan: self.spec_plan() }
    }
}

impl ParentHardening {
    #[verifier::type_invariant]
    spec fn is_vetted(&self) -> bool {
        vetted(self@)
    }

    pub closed spec fn spec_plan(&self) -> PlanView {
        self.plan@
    }
}

impl View for ParentHardening {
    type V = StepView;

    open spec fn view(&self) -> StepView {
        StepView::HardenParent { plan: self.spec_plan() }
    }
}

impl FinalOpen {
    #[verifier::type_invariant]
    spec fn is_vetted(&self) -> bool {
        vetted(self@)
    }

    pub closed spec fn spec_plan(&self) -> PlanView {
        self.plan@
    }

    pub closed spec fn spec_attempt(&self) -> OpenAttempt {
        self.attempt
    }
}

impl View for FinalOpen {
    type V = StepView;

    open spec fn view(&self) -> StepView {
        StepView::OpenFinal { plan: self.spec_plan(), attempt: self.spec_attempt() }
    }
}

impl HandleSealing {
    #[verifier::type_invariant]
    spec fn is_vetted(&self) -> bool {
        vetted(self@)
    }

    pub closed spec fn spec_plan(&self) -> PlanView {
        self.plan@
    }

    pub closed spec fn spec_attempt(&self) -> OpenAttempt {
        self.attempt
    }
}

impl View for HandleSealing {
    type V = StepView;

    open spec fn view(&self) -> StepView {
        StepView::SealHandle { plan: self.spec_plan(), attempt: self.spec_attempt() }
    }
}

impl FileTightening {
    #[verifier::type_invariant]
    spec fn is_vetted(&self) -> bool {
        vetted(self@)
    }

    pub closed spec fn spec_plan(&self) -> PlanView {
        self.plan@
    }

    pub closed spec fn spec_stage(&self) -> TightenStage {
        self.stage
    }
}

impl View for FileTightening {
    type V = StepView;

    open spec fn view(&self) -> StepView {
        StepView::Tighten { plan: self.spec_plan(), stage: self.spec_stage() }
    }
}

impl FileCheck {
    #[verifier::type_invariant]
    spec fn is_vetted(&self) -> bool {
        vetted(self@)
    }

    pub closed spec fn spec_plan(&self) -> PlanView {
        self.plan@
    }
}

impl View for FileCheck {
    type V = StepView;

    open spec fn view(&self) -> StepView {
        StepView::CheckFile { plan: self.spec_plan() }
    }
}

impl FileDaclTightening {
    #[verifier::type_invariant]
    spec fn is_vetted(&self) -> bool {
        vetted(self@)
    }

    pub closed spec fn spec_plan(&self) -> PlanView {
        self.plan@
    }
}

impl View for FileDaclTightening {
    type V = StepView;

    open spec fn view(&self) -> StepView {
        StepView::ApplyFileDacl { plan: self.spec_plan() }
    }
}

impl FileDaclCheck {
    #[verifier::type_invariant]
    spec fn is_vetted(&self) -> bool {
        vetted(self@)
    }

    pub closed spec fn spec_plan(&self) -> PlanView {
        self.plan@
    }
}

impl View for FileDaclCheck {
    type V = StepView;

    open spec fn view(&self) -> StepView {
        StepView::CheckFileDacl { plan: self.spec_plan() }
    }
}

impl Canonicalization {
    #[verifier::type_invariant]
    spec fn is_vetted(&self) -> bool {
        vetted(self@)
    }

    pub closed spec fn spec_plan(&self) -> PlanView {
        self.plan@
    }
}

impl View for Canonicalization {
    type V = StepView;

    open spec fn view(&self) -> StepView {
        StepView::Canonicalize { plan: self.spec_plan() }
    }
}

impl OpenedRendezvous {
    #[verifier::type_invariant]
    spec fn is_vetted(&self) -> bool {
        vetted(self@)
    }

    pub closed spec fn spec_plan(&self) -> PlanView {
        self.plan@
    }

    pub closed spec fn spec_identity(&self) -> Seq<u8> {
        self.identity@
    }
}

impl View for OpenedRendezvous {
    type V = StepView;

    open spec fn view(&self) -> StepView {
        StepView::Opened { plan: self.spec_plan(), identity: self.spec_identity() }
    }
}

impl View for OpenStep {
    type V = StepView;

    open spec fn view(&self) -> StepView {
        match self {
            OpenStep::InspectAncestor(step) => step@,
            OpenStep::CreateDirectory(step) => step@,
            OpenStep::VerifyDirectoryDacl(step) => step@,
            OpenStep::CheckParent(step) => step@,
            OpenStep::CheckParentDacl(step) => step@,
            OpenStep::HardenParent(step) => step@,
            OpenStep::OpenFinal(step) => step@,
            OpenStep::SealHandle(step) => step@,
            OpenStep::Tighten(step) => step@,
            OpenStep::CheckFile(step) => step@,
            OpenStep::ApplyFileDacl(step) => step@,
            OpenStep::CheckFileDacl(step) => step@,
            OpenStep::Canonicalize(step) => step@,
            OpenStep::Opened(step) => step@,
        }
    }
}

/// The answer of a call, with its failure reduced to a kind.
pub open spec fn answer_kind<T>(answer: Result<T, IoFailure>) -> Result<T, IoErrorKind> {
    match answer {
        Ok(value) => Ok(value),
        Err(failure) => Err(failure.kind),
    }
}

/// The outermost directory that is left to make, or the check of the parent.
pub open spec fn next_directory(plan: PlanView, queue: Seq<Seq<u8>>) -> StepView {
    if queue.len() == 0 {
        StepView::CheckParent { plan }
    } else {
        StepView::CreateDirectory {
            plan,
            queue: queue.drop_last(),
            directory: queue.last(),
            stage: DirectoryStage::Create,
        }
    }
}

/// A missing ancestor is remembered and the one above it inspected; an existing
/// one has to be a real directory.
pub open spec fn next_ancestor(
    plan: PlanView,
    missing: Seq<Seq<u8>>,
    cursor: Seq<u8>,
    found: Result<EntryFacts, IoErrorKind>,
) -> Option<StepView> {
    let above = parent_path(plan.host.platform, cursor);
    match found {
        Ok(facts) => if ancestor_fault(plan.host.platform, facts) is None {
            Some(next_directory(plan, missing))
        } else {
            None
        },
        Err(IoErrorKind::NotFound) => if above is Some && above->0.len() > 0 {
            Some(
                StepView::InspectAncestor { plan, missing: missing.push(cursor), cursor: above->0 },
            )
        } else {
            Some(next_directory(plan, missing.push(cursor)))
        },
        Err(_) => None,
    }
}

/// Making one directory: on Unix it is then restricted through a descriptor
/// that does not follow symbolic links, on Windows by its access-control list.
pub open spec fn next_creation(
    plan: PlanView,
    queue: Seq<Seq<u8>>,
    directory: Seq<u8>,
    stage: DirectoryStage,
    done: Result<(), IoErrorKind>,
) -> Option<StepView> {
    let platform = plan.host.platform;
    match stage {
        DirectoryStage::Create => if done is Ok || (done == Err::<(), IoErrorKind>(
            IoErrorKind::AlreadyExists,
        ) && platform !is Other) {
            match platform {
                Platform::Unix => Some(
                    StepView::CreateDirectory {
                        plan,
                        queue,
                        directory,
                        stage: DirectoryStage::OpenNoFollow,
                    },
                ),
                Platform::Windows => Some(
                    StepView::CreateDirectory {
                        plan,
                        queue,
                        directory,
                        stage: DirectoryStage::ApplyDacl,
                    },
                ),
                Platform::Other => Some(next_directory(plan, queue)),
            }
        } else {
            None
        },
        DirectoryStage::OpenNoFollow => if done is Ok {
            Some(
                StepView::CreateDirectory { plan, queue, directory, stage: DirectoryStage::Stat },
            )
        } else {
            None
        },
        DirectoryStage::Stat => if done is Ok {
            Some(
                StepView::CreateDirectory {
                    plan,
                    queue,
                    directory,
                    stage: DirectoryStage::Restrict,
                },
            )
        } else {
            None
        },
        DirectoryStage::Restrict => if done is Ok {
            Some(next_directory(plan, queue))
        } else {
            None
        },
        DirectoryStage::ApplyDacl => if done is Ok {
            Some(StepView::VerifyDirectoryDacl { plan, queue, directory })
        } else {
            None
        },
    }
}

/// The call of a stage, as errors name it.
pub open spec fn creation_call(stage: DirectoryStage) -> IoStep {
    match stage {
        DirectoryStage::Create => IoStep::CreateDirectory,
        DirectoryStage::OpenNoFollow => IoStep::OpenDirectory,
        DirectoryStage::Stat => IoStep::StatDirectory,
        DirectoryStage::Restrict => IoStep::RestrictDirectory,
        DirectoryStage::ApplyDacl => IoStep::ApplyDacl,
    }
}

/// An acceptable parent is hardened where that is asked for, and its list is
/// judged where lists matter.
pub open spec fn next_parent_check(plan: PlanView, facts: EntryFacts) -> Option<StepView> {
    let found = PlanView { parent_facts: Some(facts), ..plan };
    if directory_fault(plan.host, plan.policy, facts) is Some {
        None
    } else if dacl_matters(plan.host, plan.policy) {
        Some(StepView::CheckParentDacl { plan: found })
    } else if plan.harden && plan.host.platform is Unix && root_is_open(facts) {
        Some(StepView::HardenParent { plan: found })
    } else {
        Some(StepView::OpenFinal { plan: found, attempt: OpenAttempt::Existing })
    }
}

/// An opened file is checked; one that was created is made private before.
pub open spec fn next_opened(plan: PlanView, attempt: OpenAttempt) -> StepView {
    match (attempt, plan.host.platform) {
        (OpenAttempt::CreateExclusive, Platform::Unix) => StepView::Tighten {
            plan,
            stage: TightenStage::Stat,
        },
        (OpenAttempt::CreateExclusive, Platform::Windows) => StepView::Tighten {
            plan,
            stage: TightenStage::ApplyDacl,
        },
        _ => StepView::CheckFile { plan },
    }
}

/// The existing file is tried first; where there is none it is created, and
/// where it appeared meanwhile it is opened again.
pub open spec fn next_attempt(
    plan: PlanView,
    attempt: OpenAttempt,
    failed: IoErrorKind,
) -> Option<StepView> {
    match (attempt, failed) {
        (OpenAttempt::Existing, IoErrorKind::NotFound) => Some(
            StepView::OpenFinal { plan, attempt: OpenAttempt::CreateExclusive },
        ),
        (OpenAttempt::CreateExclusive, IoErrorKind::AlreadyExists) => Some(
            StepView::OpenFinal { plan, attempt: OpenAttempt::Existing },
        ),
        _ => None,
    }
}

/// A handle that was opened on Windows is first kept from being inherited.
pub open spec fn next_final(
    plan: PlanView,
    attempt: OpenAttempt,
    done: Result<(), IoErrorKind>,
) -> Option<StepView> {
    match done {
        Ok(()) => if plan.host.platform is Windows {
            Some(StepView::SealHandle { plan, attempt })
        } else {
            Some(next_opened(plan, attempt))
        },
        Err(failed) => next_attempt(plan, attempt, failed),
    }
}

/// A handle that cannot be sealed counts as one that could not be opened.
pub open spec fn next_sealing(
    plan: PlanView,
    attempt: OpenAttempt,
    done: Result<(), IoErrorKind>,
) -> Option<StepView> {
    match done {
        Ok(()) => Some(next_opened(PlanView { sealed: true, ..plan }, attempt)),
        Err(failed) => next_attempt(plan, attempt, failed),
    }
}

/// A created file gets its owner-only mode or list before it is checked.
pub open spec fn next_tightening(plan: PlanView, stage: TightenStage) -> StepView {
    match stage {
        TightenStage::Stat => StepView::Tighten { plan, stage: TightenStage::Restrict },
        TightenStage::Restrict => StepView::CheckFile { plan },
        TightenStage::ApplyDacl => StepView::CheckFile { plan },
    }
}

/// The call of a stage, as errors name it.
pub open spec fn tightening_call(stage: TightenStage) -> IoStep {
    match stage {
        TightenStage::Stat => IoStep::StatCreatedFile,
        TightenStage::Restrict => IoStep::RestrictFile,
        TightenStage::ApplyDacl => IoStep::ApplyDacl,
    }
}

/// An acceptable file goes on to its list where lists matter, else to its
/// canonical identity.
pub open spec fn next_file_check(plan: PlanView, facts: EntryFacts) -> Option<StepView> {
    let found = PlanView { file_facts: Some(facts), ..plan };
    if file_fault(plan.host, plan.policy, facts) is Some {
        None
    } else if dacl_matters(plan.host, plan.policy) {
        Some(StepView::ApplyFileDacl { plan: found })
    } else {
        Some(StepView::Canonicalize { plan: found })
    }
}

/// The directory that a lock file lies in, where its path names one.
pub open spec fn lock_directory(platform: Platform, path: Seq<u8>) -> Option<Seq<u8>> {
    match parent_path(platform, path) {
        Some(parent) => if parent.len() > 0 {
            Some(parent)
        } else {
            None
        },
        None => None,
    }
}

/// How an opening starts: at the directory of the lock file, or at the file
/// itself where its path names no directory.
pub open spec fn first_step(
    path: Seq<u8>,
    policy: PathSecurityPolicy,
    host: HostFacts,
    harden: bool,
) -> StepView {
    let plan = fresh_plan(path, policy, host, harden);
    match plan.parent {
        Some(parent) => StepView::InspectAncestor { plan, missing: Seq::empty(), cursor: parent },
        None => StepView::OpenFinal { plan, attempt: OpenAttempt::Existing },
    }
}

/// Begin the opening of a lock file.
pub fn open_lock_file(
    path: LockPath,
    policy: PathSecurityPolicy,
    host: HostFacts,
    harden: bool,
) -> (begun: Result<OpenStep, LockError>)
    ensures
        match begun {
            Ok(step) => !has_parent_component(host.platform, path@) && step@ == first_step(
                path@,
                policy,
                host,
                harden,
            ),
            Err(error) => has_parent_component(host.platform, path@) && error
                == LockError::ParentDirComponent,
        },
{
    if let Err(error) = refuse_parent_dir_components(&path, host.platform) {
        return Err(error);
    }
    let directory = match path.parent(host.platform) {
        Some(parent) => if parent.is_empty() {
            None
        } else {
            Some(parent)
        },
        None => None,
    };
    let cursor = match &directory {
        Some(parent) => Some(parent.clone()),
        None => None,
    };
    proof {
        law_parent_is_a_shorter_beginning(host.platform, path@);
    }
    let plan = OpenPlan {
        path,
        parent: directory,
        policy,
        host,
        harden,
        parent_facts: None,
        parent_dacl_private: false,
        hardened: false,
        sealed: false,
        file_facts: None,
        file_dacl_exact: false,
    };
    match cursor {
        Some(cursor) => {
            let missing: Vec<LockPath> = Vec::new();
            assert(path_views(missing@) =~= Seq::<Seq<u8>>::empty());
            Ok(OpenStep::InspectAncestor(ParentWalk { plan, missing, cursor }))
        },
        None => Ok(OpenStep::OpenFinal(FinalOpen { plan, attempt: OpenAttempt::Existing })),
    }
}

/// Begin the opening of the lock file of a request. Under the private policy
/// its directory is closed to group and others as well.
pub fn open_request(request: &LockRequest, host: HostFacts) -> (begun: Result<OpenStep, LockError>)
    ensures
        match begun {
            Ok(step) => !has_parent_component(host.platform, request@.path) && step@ == first_step(
                request@.path,
                request@.path_security,
                host,
                request@.path_security is Private,
            ),
            Err(error) => has_parent_component(host.platform, request@.path) && error
                == LockError::ParentDirComponent,
        },
{
    let policy = request.path_security();
    open_lock_file(request.path().clone(), policy, host, policy.is_private())
}

fn continue_with_directories(plan: OpenPlan, queue: Vec<LockPath>) -> (step: OpenStep)
    requires
        vetted(next_directory(plan@, path_views(queue@))),
    ensures
        step@ == next_directory(plan@, path_views(queue@)),
{
    let mut queue = queue;
    let ghost before = queue@;
    match queue.pop() {
        Some(directory) => {
            assert(path_views(queue@) =~= path_views(before).drop_last());
            assert(path_views(before).last() == before.last()@);
            OpenStep::CreateDirectory(
                DirectoryCreation { plan, queue, directory, stage: DirectoryStage::Create },
            )
        },
        None => OpenStep::CheckParent(ParentCheck { plan }),
    }
}

impl ParentWalk {
    /// The ancestor to inspect without following it.
    pub fn cursor(&self) -> (cursor: &LockPath)
        ensures
            cursor@ == self@->InspectAncestor_cursor,
    {
        &self.cursor
    }

    /// `found` is what is known of the ancestor.
    pub fn resume(self, found: Result<EntryFacts, IoFailure>) -> (next: Result<
        OpenStep,
        LockError,
    >)
        ensures
            ({
                let expected = next_ancestor(
                    self@->InspectAncestor_plan,
                    self@->InspectAncestor_missing,
                    self@->InspectAncestor_cursor,
                    answer_kind(found),
                );
                match next {
                    Ok(step) => expected == Some(step@),
                    Err(error) => {
                        &&& expected is None
                        &&& match found {
                            Ok(facts) => ancestor_fault(
                                self@->InspectAncestor_plan.host.platform,
                                facts,
                            ) == Some(error),
                            Err(failure) => call_failed(
                                error,
                                IoStep::InspectDirectory,
                                self@->InspectAncestor_cursor,
                                failure,
                            ),
                        }
                    },
                }
            }),
    {
        proof {
            use_type_invariant(&self);
            lemma_walk_stays_on_the_path(
                self.plan@,
                path_views(self.missing@),
                self.cursor@,
            );
        }
        match found {
            Ok(facts) => {
                if let Err(error) = check_ancestor(self.plan.host.platform, &facts) {
                    return Err(error);
                }
                Ok(continue_with_directories(self.plan, self.missing))
            },
            Err(failure) => {
                if failure.kind != IoErrorKind::NotFound {
                    return Err(
                        LockError::Io {
                            step: IoStep::InspectDirectory,
                            path: self.cursor,
                            failure,
                        },
                    );
                }
                let above = self.cursor.parent(self.plan.host.platform);
                let ghost before = self.missing@;
                let ghost added = self.cursor@;
                let mut missing = self.missing;
                missing.push(self.cursor);
                assert(path_views(missing@) =~= path_views(before).push(added));
                match above {
                    Some(next) => {
                        if !next.is_empty() {
                            return Ok(
                                OpenStep::InspectAncestor(
                                    ParentWalk { plan: self.plan, missing, cursor: next },
                                ),
                            );
                        }
                    },
                    None => {},
                }
                Ok(continue_with_directories(self.plan, missing))
            },
        }
    }
}

impl DirectoryCreation {
    pub fn directory(&self) -> (directory: &LockPath)
        ensures
            directory@ == self@->CreateDirectory_directory,
    {
        &self.directory
    }

    /// The call to make.
    pub fn stage(&self) -> (stage: DirectoryStage)
        ensures
            stage == self@->CreateDirectory_stage,
    {
        self.stage
    }

    /// The mode that the directory is made with and restricted to on Unix.
    pub fn mode(&self) -> (mode: u32)
        ensures
            mode == LOCK_DIRECTORY_MODE,
    {
        LOCK_DIRECTORY_MODE
    }

    pub fn resume(self, done: Result<(), IoFailure>) -> (next: Result<OpenStep, LockError>)
        ensures
            ({
                let expected = next_creation(
                    self@->CreateDirectory_plan,
                    self@->CreateDirectory_queue,
                    self@->CreateDirectory_directory,
                    self@->CreateDirectory_stage,
                    answer_kind(done),
                );
                match next {
                    Ok(step) => expected == Some(step@),
                    Err(error) => {
                        &&& expected is None
                        &&& done is Err
                        &&& call_failed(
                            error,
                            creation_call(self@->CreateDirectory_stage),
                            self@->CreateDirectory_directory,
                            done->Err_0,
                        )
                    },
                }
            }),
    {
        proof {
            use_type_invariant(&self);
            lemma_queue_stays_on_the_path(
                self.plan@,
                path_views(self.queue@),
                self.directory@,
            );
        }
        let platform = self.plan.host.platform;
        if let Err(failure) = done {
            let made_meanwhile = self.stage == DirectoryStage::Create && failure.kind
                == IoErrorKind::AlreadyExists && platform != Platform::Other;
            if !made_meanwhile {
                let step = match self.stage {
                    DirectoryStage::Create => IoStep::CreateDirectory,
                    DirectoryStage::OpenNoFollow => IoStep::OpenDirectory,
                    DirectoryStage::Stat => IoStep::StatDirectory,
                    DirectoryStage::Restrict => IoStep::RestrictDirectory,
                    DirectoryStage::ApplyDacl => IoStep::ApplyDacl,
                };
                return Err(LockError::Io { step, path: self.directory, failure });
            }
        }
        let stage = match self.stage {
            DirectoryStage::Create => match platform {
                Platform::Unix => DirectoryStage::OpenNoFollow,
                Platform::Windows => DirectoryStage::ApplyDacl,
                Platform::Other => {
                    return Ok(continue_with_directories(self.plan, self.queue));
                },
            },
            DirectoryStage::OpenNoFollow => DirectoryStage::Stat,
            DirectoryStage::Stat => DirectoryStage::Restrict,
            DirectoryStage::Restrict => {
                return Ok(continue_with_directories(self.plan, self.queue));
            },
            DirectoryStage::ApplyDacl => {
                return Ok(
                    OpenStep::VerifyDirectoryDacl(
                        DirectoryDaclCheck {
                            plan: self.plan,
                            queue: self.queue,
                            directory: self.directory,
                        },
                    ),
                );
            },
        };
        Ok(
            OpenStep::CreateDirectory(
                DirectoryCreation {
                    plan: self.plan,
                    queue: self.queue,
                    directory: self.directory,
                    stage,
                },
            ),
        )
    }
}

impl DirectoryDaclCheck {
    pub fn directory(&self) -> (directory: &LockPath)
        ensures
            directory@ == self@->VerifyDirectoryDacl_directory,
    {
        &self.directory
    }

    pub fn resume(self, dacl: Result<DaclFacts, IoFailure>) -> (next: Result<OpenStep, LockError>)
        ensures
            match next {
                Ok(step) => dacl is Ok && dacl_is_exact(dacl->Ok_0) && step@ == next_directory(
                    self@->VerifyDirectoryDacl_plan,
                    self@->VerifyDirectoryDacl_queue,
                ),
                Err(error) => dacl_refused(dacl, error),
            },
    {
        proof {
            use_type_invariant(&self);
            lemma_queue_stays_on_the_path(
                self.plan@,
                path_views(self.queue@),
                self.directory@,
            );
        }
        match dacl {
            Ok(facts) => {
                if let Err(error) = require_protected_user_private_dacl(&facts) {
                    return Err(error);
                }
                Ok(continue_with_directories(self.plan, self.queue))
            },
            Err(failure) => Err(LockError::Query { failure }),
        }
    }
}

/// The list could not be read, or it is not the exact private one.
pub open spec fn dacl_refused(dacl: Result<DaclFacts, IoFailure>, error: LockError) -> bool {
    match dacl {
        Ok(facts) => !dacl_is_exact(facts) && error == (LockError::DaclNotProtected {
            descriptor_protected: control_protects(facts.control),
            exact_private_aces: same_dacl_aces(facts.sddl@, facts.canonical@),
        }),
        Err(failure) => error == (LockError::Query { failure }),
    }
}

impl ParentCheck {
    /// The directory to inspect without following it.
    pub fn parent(&self) -> (parent: &LockPath)
        ensures
            parent@ == directory_of(self@->CheckParent_plan),
    {
        self.plan.parent()
    }

    pub fn resume(self, found: Result<EntryFacts, IoFailure>) -> (next: Result<
        OpenStep,
        LockError,
    >)
        ensures
            match next {
                Ok(step) => found is Ok && next_parent_check(self@->CheckParent_plan, found->Ok_0)
                    == Some(step@),
                Err(error) => match found {
                    Ok(facts) => directory_fault(
                        self@->CheckParent_plan.host,
                        self@->CheckParent_plan.policy,
                        facts,
                    ) == Some(error),
                    Err(failure) => call_failed(
                        error,
                        IoStep::StatDirectory,
                        directory_of(self@->CheckParent_plan),
                        failure,
                    ),
                },
            },
    {
        proof {
            use_type_invariant(&self);
        }
        let facts = match found {
            Ok(facts) => facts,
            Err(failure) => {
                return Err(
                    LockError::Io {
                        step: IoStep::StatDirectory,
                        path: self.plan.parent().clone(),
                        failure,
                    },
                );
            },
        };
        if let Err(error) = validate_existing_lock_directory(
            &self.plan.host,
            self.plan.policy,
            &facts,
        ) {
            return Err(error);
        }
        let mut plan = self.plan;
        plan.parent_facts = Some(facts);
        if plan.host.platform == Platform::Windows && plan.policy.is_private() {
            return Ok(OpenStep::CheckParentDacl(ParentDaclCheck { plan }));
        }
        if plan.harden {
            match harden_lock_root_permissions(plan.host.platform, plan.parent(), &facts) {
                Ok(Some(_)) => {
                    return Ok(OpenStep::HardenParent(ParentHardening { plan }));
                },
                Ok(None) => {},
                Err(error) => {
                    return Err(error);
                },
            }
        }
        Ok(OpenStep::OpenFinal(FinalOpen { plan, attempt: OpenAttempt::Existing }))
    }
}

impl ParentDaclCheck {
    pub fn parent(&self) -> (parent: &LockPath)
        ensures
            parent@ == directory_of(self@->CheckParentDacl_plan),
    {
        self.plan.parent()
    }

    pub fn resume(self, dacl: Result<DirectoryList, IoFailure>) -> (next: Result<
        OpenStep,
        LockError,
    >)
        ensures
            match next {
                Ok(step) => {
                    &&& dacl is Ok
                    &&& user_private(dacl->Ok_0.sddl@, dacl->Ok_0.sid@)
                    &&& step@ == (StepView::OpenFinal {
                        plan: PlanView { parent_dacl_private: true, ..self@->CheckParentDacl_plan },
                        attempt: OpenAttempt::Existing,
                    })
                },
                Err(error) => match dacl {
                    Ok(list) => !user_private(list.sddl@, list.sid@) && error
                        == LockError::DaclNotPrivate,
                    Err(failure) => error == (LockError::Query { failure }),
                },
            },
    {
        proof {
            use_type_invariant(&self);
        }
        match dacl {
            Ok(list) => {
                if let Err(error) = require_user_private_dacl(
                    list.sddl.as_str(),
                    list.sid.as_str(),
                ) {
                    return Err(error);
                }
                let mut plan = self.plan;
                plan.parent_dacl_private = true;
                Ok(OpenStep::OpenFinal(FinalOpen { plan, attempt: OpenAttempt::Existing }))
            },
            Err(failure) => Err(LockError::Query { failure }),
        }
    }
}

impl ParentHardening {
    pub fn parent(&self) -> (parent: &LockPath)
        ensures
            parent@ == directory_of(self@->HardenParent_plan),
    {
        self.plan.parent()
    }

    /// The mode to set.
    pub fn mode(&self) -> (mode: u32)
        ensures
            mode == LOCK_DIRECTORY_MODE,
    {
        LOCK_DIRECTORY_MODE
    }

    pub fn resume(self, done: Result<(), IoFailure>) -> (next: Result<OpenStep, LockError>)
        ensures
            match (done, next) {
                (Ok(()), Ok(step)) => step@ == (StepView::OpenFinal {
                    plan: PlanView { hardened: true, ..self@->HardenParent_plan },
                    attempt: OpenAttempt::Existing,
                }),
                (Err(failure), Err(error)) => call_failed(
                    error,
                    IoStep::HardenDirectory,
                    directory_of(self@->HardenParent_plan),
                    failure,
                ),
                _ => false,
            },
    {
        proof {
            use_type_invariant(&self);
        }
        if let Err(failure) = done {
            return Err(
                LockError::Io {
                    step: IoStep::HardenDirectory,
                    path: self.plan.parent().clone(),
                    failure,
                },
            );
        }
        let mut plan = self.plan;
        plan.hardened = true;
        Ok(OpenStep::OpenFinal(FinalOpen { plan, attempt: OpenAttempt::Existing }))
    }
}

impl FinalOpen {
    pub fn path(&self) -> (path: &LockPath)
        ensures
            path@ == self@->OpenFinal_plan.path,
    {
        self.plan.path()
    }

    /// The flags to open with.
    pub fn intent(&self) -> (intent: FinalComponentOpenIntent)
        ensures
            intent.no_follow,
            intent.create_exclusive_if_absent,
            intent.owner_only_create_mode,
    {
        FinalComponentOpenIntent::for_policy(self.plan.policy)
    }

    /// Whether child processes may inherit the handle: never.
    pub fn inheritable(&self) -> (inheritable: bool)
        ensures
            !inheritable,
    {
        false
    }

    /// How to try.
    pub fn attempt(&self) -> (attempt: OpenAttempt)
        ensures
            attempt == self@->OpenFinal_attempt,
    {
        self.attempt
    }

    /// The mode that the file is created with on Unix.
    pub fn mode(&self) -> (mode: u32)
        ensures
            mode == LOCK_FILE_MODE,
    {
        LOCK_FILE_MODE
    }

    pub fn resume(self, done: Result<(), IoFailure>) -> (next: Result<OpenStep, LockError>)
        ensures
            ({
                let expected = next_final(
                    self@->OpenFinal_plan,
                    self@->OpenFinal_attempt,
                    answer_kind(done),
                );
                match next {
                    Ok(step) => expected == Some(step@),
                    Err(error) => {
                        &&& expected is None
                        &&& done is Err
                        &&& open_error(
                            self@->OpenFinal_plan.host,
                            self@->OpenFinal_plan.path,
                            done->Err_0,
                            error,
                        )
                    },
                }
            }),
    {
        proof {
            use_type_invariant(&self);
        }
        match done {
            Ok(()) => if self.plan.host.platform == Platform::Windows {
                Ok(
                    OpenStep::SealHandle(
                        HandleSealing { plan: self.plan, attempt: self.attempt },
                    ),
                )
            } else {
                Ok(continue_with_opened(self.plan, self.attempt))
            },
            Err(failure) => attempt_again(self.plan, self.attempt, failure),
        }
    }
}

fn continue_with_opened(plan: OpenPlan, attempt: OpenAttempt) -> (step: OpenStep)
    requires
        vetted(next_opened(plan@, attempt)),
    ensures
        step@ == next_opened(plan@, attempt),
{
    match (attempt, plan.host.platform) {
        (OpenAttempt::CreateExclusive, Platform::Unix) => OpenStep::Tighten(
            FileTightening { plan, stage: TightenStage::Stat },
        ),
        (OpenAttempt::CreateExclusive, Platform::Windows) => OpenStep::Tighten(
            FileTightening { plan, stage: TightenStage::ApplyDacl },
        ),
        _ => OpenStep::CheckFile(FileCheck { plan }),
    }
}

fn attempt_again(plan: OpenPlan, attempt: OpenAttempt, failure: IoFailure) -> (next: Result<
    OpenStep,
    LockError,
>)
    requires
        vetted((StepView::OpenFinal { plan: plan@, attempt })),
    ensures
        match next {
            Ok(step) => next_attempt(plan@, attempt, failure.kind) == Some(step@),
            Err(error) => next_attempt(plan@, attempt, failure.kind) is None && open_error(
                plan@.host,
                plan@.path,
                failure,
                error,
            ),
        },
{
    match attempt {
        OpenAttempt::Existing => {
            if failure.kind == IoErrorKind::NotFound {
                return Ok(
                    OpenStep::OpenFinal(
                        FinalOpen { plan, attempt: OpenAttempt::CreateExclusive },
                    ),
                );
            }
        },
        OpenAttempt::CreateExclusive => {
            if failure.kind == IoErrorKind::AlreadyExists {
                return Ok(
                    OpenStep::OpenFinal(FinalOpen { plan, attempt: OpenAttempt::Existing }),
                );
            }
        },
    }
    Err(map_substitution_error(failure, plan.path, &plan.host))
}

impl HandleSealing {
    /// `done` tells whether the handle was kept from being inherited.
    pub fn resume(self, done: Result<(), IoFailure>) -> (next: Result<OpenStep, LockError>)
        ensures
            ({
                let expected = next_sealing(
                    self@->SealHandle_plan,
                    self@->SealHandle_attempt,
                    answer_kind(done),
                );
                match next {
                    Ok(step) => expected == Some(step@),
                    Err(error) => {
                        &&& expected is None
                        &&& done is Err
                        &&& open_error(
                            self@->SealHandle_plan.host,
                            self@->SealHandle_plan.path,
                            done->Err_0,
                            error,
                        )
                    },
                }
            }),
    {
        proof {
            use_type_invariant(&self);
        }
        match done {
            Ok(()) => {
                let mut plan = self.plan;
                plan.sealed = true;
                Ok(continue_with_opened(plan, self.attempt))
            },
            Err(failure) => attempt_again(self.plan, self.attempt, failure),
        }
    }
}

impl FileTightening {
    pub fn path(&self) -> (path: &LockPath)
        ensures
            path@ == self@->Tighten_plan.path,
    {
        self.plan.path()
    }

    /// The call to make.
    pub fn stage(&self) -> (stage: TightenStage)
        ensures
            stage == self@->Tighten_stage,
    {
        self.stage
    }

    /// The mode that the file is restricted to on Unix.
    pub fn mode(&self) -> (mode: u32)
        ensures
            mode == LOCK_FILE_MODE,
    {
        LOCK_FILE_MODE
    }

    pub fn resume(self, done: Result<(), IoFailure>) -> (next: Result<OpenStep, LockError>)
        ensures
            match (done, next) {
                (Ok(()), Ok(step)) => step@ == next_tightening(
                    self@->Tighten_plan,
                    self@->Tighten_stage,
                ),
                (Err(failure), Err(error)) => call_failed(
                    error,
                    tightening_call(self@->Tighten_stage),
                    self@->Tighten_plan.path,
                    failure,
                ),
                _ => false,
            },
    {
        proof {
            use_type_invariant(&self);
        }
        if let Err(failure) = done {
            let step = match self.stage {
                TightenStage::Stat => IoStep::StatCreatedFile,
                TightenStage::Restrict => IoStep::RestrictFile,
                TightenStage::ApplyDacl => IoStep::ApplyDacl,
            };
            return Err(LockError::Io { step, path: self.plan.path, failure });
        }
        match self.stage {
            TightenStage::Stat => Ok(
                OpenStep::Tighten(
                    FileTightening { plan: self.plan, stage: TightenStage::Restrict },
                ),
            ),
            TightenStage::Restrict => Ok(OpenStep::CheckFile(FileCheck { plan: self.plan })),
            TightenStage::ApplyDacl => Ok(OpenStep::CheckFile(FileCheck { plan: self.plan })),
        }
    }
}

impl FileCheck {
    /// `found` is what the descriptor of the opened file says.
    pub fn resume(self, found: Result<EntryFacts, IoFailure>) -> (next: Result<
        OpenStep,
        LockError,
    >)
        ensures
            match next {
                Ok(step) => found is Ok && next_file_check(self@->CheckFile_plan, found->Ok_0)
                    == Some(step@),
                Err(error) => match found {
                    Ok(facts) => file_fault(
                        self@->CheckFile_plan.host,
                        self@->CheckFile_plan.policy,
                        facts,
                    ) == Some(error),
                    Err(failure) => call_failed(
                        error,
                        IoStep::StatOpenedFile,
                        self@->CheckFile_plan.path,
                        failure,
                    ),
                },
            },
    {
        proof {
            use_type_invariant(&self);
        }
        let facts = match found {
            Ok(facts) => facts,
            Err(failure) => {
                return Err(
                    LockError::Io { step: IoStep::StatOpenedFile, path: self.plan.path, failure },
                );
            },
        };
        if let Err(error) = validate_opened_lock_file(&self.plan.host, self.plan.policy, &facts) {
            return Err(error);
        }
        let mut plan = self.plan;
        plan.file_facts = Some(facts);
        if plan.host.platform == Platform::Windows && plan.policy.is_private() {
            return Ok(OpenStep::ApplyFileDacl(FileDaclTightening { plan }));
        }
        Ok(OpenStep::Canonicalize(Canonicalization { plan }))
    }
}

impl FileDaclTightening {
    pub fn path(&self) -> (path: &LockPath)
        ensures
            path@ == self@->ApplyFileDacl_plan.path,
    {
        self.plan.path()
    }

    pub fn resume(self, done: Result<(), IoFailure>) -> (next: Result<OpenStep, LockError>)
        ensures
            match (done, next) {
                (Ok(()), Ok(step)) => step@ == (StepView::CheckFileDacl {
                    plan: self@->ApplyFileDacl_plan,
                }),
                (Err(failure), Err(error)) => call_failed(
                    error,
                    IoStep::ApplyDacl,
                    self@->ApplyFileDacl_plan.path,
                    failure,
                ),
                _ => false,
            },
    {
        proof {
            use_type_invariant(&self);
        }
        match done {
            Ok(()) => Ok(OpenStep::CheckFileDacl(FileDaclCheck { plan: self.plan })),
            Err(failure) => Err(
                LockError::Io { step: IoStep::ApplyDacl, path: self.plan.path, failure },
            ),
        }
    }
}

impl FileDaclCheck {
    pub fn path(&self) -> (path: &LockPath)
        ensures
            path@ == self@->CheckFileDacl_plan.path,
    {
        self.plan.path()
    }

    pub fn resume(self, dacl: Result<DaclFacts, IoFailure>) -> (next: Result<OpenStep, LockError>)
        ensures
            match next {
                Ok(step) => {
                    &&& dacl is Ok
                    &&& dacl_is_exact(dacl->Ok_0)
                    &&& step@ == (StepView::Canonicalize {
                        plan: PlanView { file_dacl_exact: true, ..self@->CheckFileDacl_plan },
                    })
                },
                Err(error) => dacl_refused(dacl, error),
            },
    {
        proof {
            use_type_invariant(&self);
        }
        match dacl {
            Ok(facts) => {
                if let Err(error) = require_protected_user_private_dacl(&facts) {
                    return Err(error);
                }
                let mut plan = self.plan;
                plan.file_dacl_exact = true;
                Ok(OpenStep::Canonicalize(Canonicalization { plan }))
            },
            Err(failure) => Err(LockError::Query { failure }),
        }
    }
}

impl Canonicalization {
    pub fn path(&self) -> (path: &LockPath)
        ensures
            path@ == self@->Canonicalize_plan.path,
    {
        self.plan.path()
    }

    pub fn resume(self, identity: Result<LockPath, IoFailure>) -> (next: Result<
        OpenStep,
        LockError,
    >)
        ensures
            match (identity, next) {
                (Ok(resolved), Ok(step)) => step@ == (StepView::Opened {
                    plan: self@->Canonicalize_plan,
                    identity: resolved@,
                }),
                (Err(failure), Err(error)) => call_failed(
                    error,
                    IoStep::Canonicalize,
                    self@->Canonicalize_plan.path,
                    failure,
                ),
                _ => false,
            },
    {
        proof {
            use_type_invariant(&self);
        }
        match identity {
            Ok(identity) => Ok(
                OpenStep::Opened(OpenedRendezvous { plan: self.plan, identity }),
            ),
            Err(failure) => Err(
                LockError::Io { step: IoStep::Canonicalize, path: self.plan.path, failure },
            ),
        }
    }
}

/// The file was opened for this request, under its policy and on such a host.
pub open spec fn opened_for(step: StepView, request: RequestView, platform: Platform) -> bool {
    let plan = plan_of(step);
    &&& plan.path == request.path
    &&& plan.policy == request.path_security
    &&& plan.harden == (request.path_security is Private)
    &&& plan.host.platform == platform
}

impl OpenedRendezvous {
    /// The path that was opened.
    pub fn path(&self) -> (path: &LockPath)
        ensures
            path@ == self@->Opened_plan.path,
    {
        self.plan.path()
    }

    /// Whether the file was opened for this request on such a host.
    pub fn is_for(&self, request: &LockRequest, platform: Platform) -> (matches: bool)
        ensures
            matches == opened_for(self@, request@, platform),
    {
        self.plan.path.same_as(request.path()) && self.plan.policy == request.path_security()
            && self.plan.harden == request.path_security().is_private()
            && self.plan.host.platform == platform
    }

    /// The canonical identity of the lock, whose file has passed every check.
    pub fn canonical_lock_path(self) -> (identity: LockPath)
        ensures
            identity@ == self@->Opened_identity,
            vetted(self@),
    {
        proof {
            use_type_invariant(&self);
        }
        self.identity
    }
}

/// The plan of a step.
pub open spec fn plan_of(step: StepView) -> PlanView {
    match step {
        StepView::InspectAncestor { plan, .. } => plan,
        StepView::CreateDirectory { plan, .. } => plan,
        StepView::VerifyDirectoryDacl { plan, .. } => plan,
        StepView::CheckParent { plan } => plan,
        StepView::CheckParentDacl { plan } => plan,
        StepView::HardenParent { plan } => plan,
        StepView::OpenFinal { plan, .. } => plan,
        StepView::SealHandle { plan, .. } => plan,
        StepView::Tighten { plan, .. } => plan,
        StepView::CheckFile { plan } => plan,
        StepView::ApplyFileDacl { plan } => plan,
        StepView::CheckFileDacl { plan } => plan,
        StepView::Canonicalize { plan } => plan,
        StepView::Opened { plan, .. } => plan,
    }
}

/// Some answer of the file system leads from one step to the next.
pub open spec fn leads_to(step: StepView, next: StepView) -> bool {
    match step {
        StepView::InspectAncestor { plan, missing, cursor } => exists|
            found: Result<EntryFacts, IoErrorKind>,
        | #[trigger]
            next_ancestor(plan, missing, cursor, found) == Some(next),
        StepView::CreateDirectory { plan, queue, directory, stage } => exists|
            done: Result<(), IoErrorKind>,
        | #[trigger]
            next_creation(plan, queue, directory, stage, done) == Some(next),
        StepView::VerifyDirectoryDacl { plan, queue, directory } => next == next_directory(
            plan,
            queue,
        ),
        StepView::CheckParent { plan } => exists|facts: EntryFacts| #[trigger]
            next_parent_check(plan, facts) == Some(next),
        StepView::CheckParentDacl { plan } => next == (StepView::OpenFinal {
            plan: PlanView { parent_dacl_private: true, ..plan },
            attempt: OpenAttempt::Existing,
        }),
        StepView::HardenParent { plan } => next == (StepView::OpenFinal {
            plan: PlanView { hardened: true, ..plan },
            attempt: OpenAttempt::Existing,
        }),
        StepView::OpenFinal { plan, attempt } => exists|done: Result<(), IoErrorKind>| #[trigger]
            next_final(plan, attempt, done) == Some(next),
        StepView::SealHandle { plan, attempt } => exists|done: Result<(), IoErrorKind>| #[trigger]
            next_sealing(plan, attempt, done) == Some(next),
        StepView::Tighten { plan, stage } => next == next_tightening(plan, stage),
        StepView::CheckFile { plan } => exists|facts: EntryFacts| #[trigger]
            next_file_check(plan, facts) == Some(next),
        StepView::ApplyFileDacl { plan } => next == (StepView::CheckFileDacl { plan }),
        StepView::CheckFileDacl { plan } => next == (StepView::Canonicalize {
            plan: PlanView { file_dacl_exact: true, ..plan },
        }),
        StepView::Canonicalize { plan } => next is Opened && plan_of(next) == plan,
        StepView::Opened { .. } => false,
    }
}

/// The step comes after every check of the directory.
pub open spec fn past_parent(step: StepView) -> bool {
    step is OpenFinal || step is SealHandle || past_open(step)
}

/// The step comes after the file has been opened.
pub open spec fn past_open(step: StepView) -> bool {
    step is Tighten || step is CheckFile || past_file(step)
}

/// The step comes after the check of the file itself.
pub open spec fn past_file(step: StepView) -> bool {
    step is ApplyFileDacl || step is CheckFileDacl || past_file_dacl(step)
}

/// The step comes after every check of the file.
pub open spec fn past_file_dacl(step: StepView) -> bool {
    step is Canonicalize || step is Opened
}

/// The directory's own facts have been found acceptable.
pub open spec fn parent_accepted(plan: PlanView) -> bool {
    plan.parent_facts is Some && directory_fault(plan.host, plan.policy, plan.parent_facts->0)
        is None
}

/// The directory passed: its own facts, its list where lists matter, and it is
/// closed to group and others where that was asked for.
pub open spec fn parent_vetted(plan: PlanView) -> bool {
    plan.parent is Some ==> {
        &&& parent_accepted(plan)
        &&& dacl_matters(plan.host, plan.policy) ==> plan.parent_dacl_private
        &&& plan.harden && plan.host.platform is Unix ==> plan.hardened || !root_is_open(
            plan.parent_facts->0,
        )
    }
}

/// The file's own facts have been found acceptable.
pub open spec fn file_accepted(plan: PlanView) -> bool {
    plan.file_facts is Some && file_fault(plan.host, plan.policy, plan.file_facts->0) is None
}

/// The directories that a step still has to do with.
pub open spec fn directories_of(step: StepView) -> Seq<Seq<u8>> {
    match step {
        StepView::InspectAncestor { missing, cursor, .. } => missing.push(cursor),
        StepView::CreateDirectory { queue, directory, .. } => queue.push(directory),
        StepView::VerifyDirectoryDacl { queue, directory, .. } => queue.push(directory),
        _ => Seq::empty(),
    }
}

/// Every directory lies on the path of the lock file.
pub open spec fn on_the_path(directories: Seq<Seq<u8>>, path: Seq<u8>) -> bool {
    forall|i: int|
        0 <= i < directories.len() ==> (#[trigger] directories[i]).len() < path.len()
            && directories[i].is_prefix_of(path)
}

/// Everything that has to be checked before this step has been checked.
pub open spec fn vetted(step: StepView) -> bool {
    let plan = plan_of(step);
    &&& !has_parent_component(plan.host.platform, plan.path)
    &&& plan.parent == lock_directory(plan.host.platform, plan.path)
    &&& on_the_path(directories_of(step), plan.path)
    &&& step is CheckParentDacl ==> parent_accepted(plan) && dacl_matters(plan.host, plan.policy)
    &&& step is HardenParent ==> parent_accepted(plan) && !dacl_matters(plan.host, plan.policy)
    &&& past_parent(step) ==> parent_vetted(plan)
    &&& step is SealHandle ==> plan.host.platform is Windows
    &&& past_open(step) && plan.host.platform is Windows ==> plan.sealed
    &&& past_file(step) ==> file_accepted(plan)
    &&& past_file_dacl(step) && dacl_matters(plan.host, plan.policy) ==> plan.file_dacl_exact
}

/// A chain of steps from the beginning of an opening.
pub open spec fn opening(
    steps: Seq<StepView>,
    path: Seq<u8>,
    policy: PathSecurityPolicy,
    host: HostFacts,
    harden: bool,
) -> bool {
    &&& steps.len() > 0
    &&& steps[0] == first_step(path, policy, host, harden)
    &&& !has_parent_component(host.platform, path)
    &&& forall|i: int|
        0 <= i < steps.len() - 1 ==> leads_to(#[trigger] steps[i], steps[i + 1])
}

/// What one opening is about stays the same from step to step.
pub open spec fn same_subject(a: PlanView, b: PlanView) -> bool {
    a.path == b.path && a.parent == b.parent && a.policy == b.policy && a.host == b.host
        && a.harden == b.harden
}

/// No answer of the file system skips a check, or leads off the path.
pub proof fn law_no_step_skips_a_check(step: StepView, next: StepView)
    requires
        vetted(step),
        leads_to(step, next),
    ensures
        vetted(next),
        same_subject(plan_of(step), plan_of(next)),
{
    let plan = plan_of(step);
    let all = directories_of(step);
    match step {
        StepView::InspectAncestor { missing, cursor, .. } => {
            assert(all[all.len() - 1] == cursor);
            law_parent_is_a_shorter_beginning(plan.host.platform, cursor);
            lemma_walk_stays_on_the_path(plan, missing, cursor);
        },
        StepView::CreateDirectory { queue, directory, .. } => {
            lemma_queue_stays_on_the_path(plan, queue, directory);
        },
        StepView::VerifyDirectoryDacl { queue, directory, .. } => {
            lemma_queue_stays_on_the_path(plan, queue, directory);
        },
        _ => {},
    }
}

/// Going on with the directories that were found missing, or with the one
/// above, stays on the path.
proof fn lemma_walk_stays_on_the_path(plan: PlanView, missing: Seq<Seq<u8>>, cursor: Seq<u8>)
    requires
        on_the_path(missing.push(cursor), plan.path),
    ensures
        on_the_path(directories_of(next_directory(plan, missing)), plan.path),
        on_the_path(directories_of(next_directory(plan, missing.push(cursor))), plan.path),
        parent_path(plan.host.platform, cursor) matches Some(above) ==> on_the_path(
            missing.push(cursor).push(above),
            plan.path,
        ),
{
    let all = missing.push(cursor);
    assert(all[all.len() - 1] == cursor);
    assert(on_the_path(missing, plan.path)) by {
        assert forall|i: int| 0 <= i < missing.len() implies (#[trigger] missing[i]).len()
            < plan.path.len() && missing[i].is_prefix_of(plan.path) by {
            assert(all[i] == missing[i]);
        }
    }
    lemma_next_directory_stays_on_the_path(plan, missing);
    lemma_next_directory_stays_on_the_path(plan, all);
    law_parent_is_a_shorter_beginning(plan.host.platform, cursor);
    if let Some(above) = parent_path(plan.host.platform, cursor) {
        assert(above =~= plan.path.subrange(0, above.len() as int)) by {
            assert(cursor =~= plan.path.subrange(0, cursor.len() as int));
            assert(above =~= cursor.subrange(0, above.len() as int));
        }
        let further = all.push(above);
        assert forall|i: int| 0 <= i < further.len() implies (#[trigger] further[i]).len()
            < plan.path.len() && further[i].is_prefix_of(plan.path) by {
            if i < all.len() {
                assert(further[i] == all[i]);
            }
        }
    }
}

proof fn lemma_next_directory_stays_on_the_path(plan: PlanView, queue: Seq<Seq<u8>>)
    requires
        on_the_path(queue, plan.path),
    ensures
        on_the_path(directories_of(next_directory(plan, queue)), plan.path),
{
    if queue.len() > 0 {
        assert(queue.drop_last().push(queue.last()) =~= queue);
    }
}

proof fn lemma_queue_stays_on_the_path(plan: PlanView, queue: Seq<Seq<u8>>, directory: Seq<u8>)
    requires
        on_the_path(queue.push(directory), plan.path),
    ensures
        on_the_path(directories_of(next_directory(plan, queue)), plan.path),
{
    let all = queue.push(directory);
    assert forall|i: int| 0 <= i < queue.len() implies (#[trigger] queue[i]).len()
        < plan.path.len() && queue[i].is_prefix_of(plan.path) by {
        assert(all[i] == queue[i]);
    }
    lemma_next_directory_stays_on_the_path(plan, queue);
}

/// Whatever the file system answers, a lock file is handed out only after every
/// check of the directory that its own path names and of itself, under the
/// policy that was asked for, and never with a Windows handle that child
/// processes inherit.
pub proof fn law_opened_file_is_vetted(
    steps: Seq<StepView>,
    path: Seq<u8>,
    policy: PathSecurityPolicy,
    host: HostFacts,
    harden: bool,
)
    requires
        opening(steps, path, policy, host, harden),
        steps.last() is Opened,
    ensures
        ({
            let plan = plan_of(steps.last());
            &&& plan.path == path
            &&& plan.policy == policy
            &&& plan.host == host
            &&& plan.harden == harden
            &&& plan.parent == lock_directory(host.platform, path)
            &&& parent_vetted(plan)
            &&& host.platform is Windows ==> plan.sealed
            &&& file_accepted(plan)
            &&& dacl_matters(host, policy) ==> plan.file_dacl_exact
        }),
{
    lemma_steps_are_vetted(steps, path, policy, host, harden, steps.len() - 1);
}

proof fn lemma_steps_are_vetted(
    steps: Seq<StepView>,
    path: Seq<u8>,
    policy: PathSecurityPolicy,
    host: HostFacts,
    harden: bool,
    n: int,
)
    requires
        opening(steps, path, policy, host, harden),
        0 <= n < steps.len(),
    ensures
        vetted(steps[n]),
        same_subject(plan_of(steps[0]), plan_of(steps[n])),
    decreases n,
{
    if n > 0 {
        lemma_steps_are_vetted(steps, path, policy, host, harden, n - 1);
        assert(leads_to(steps[n - 1], steps[n]));
        law_no_step_skips_a_check(steps[n - 1], steps[n]);
    } else {
        law_parent_is_a_shorter_beginning(host.platform, path);
    }
}

/// Under the private policy on Unix, an opened lock file belongs to the user
/// and is closed to group and others, and its directory belongs to the user and
/// cannot be written by group or others.
pub proof fn law_private_rendezvous_on_unix(plan: PlanView)
    requires
        parent_vetted(plan),
        file_accepted(plan),
        plan.policy is Private,
        plan.host.platform is Unix,
    ensures
        plan.file_facts->0.is_file,
        plan.file_facts->0.owner == plan.host.user,
        plan.file_facts->0.mode & 0o077 == 0,
        plan.parent is Some ==> {
            &&& plan.parent_facts->0.is_dir
            &&& !plan.parent_facts->0.is_symlink
            &&& plan.parent_facts->0.owner == plan.host.user
            &&& plan.parent_facts->0.mode & 0o022 == 0
        },
{
    let file_mode = plan.file_facts->0.mode;
    assert((file_mode & 0o777) & 0o077 == file_mode & 0o077) by (bit_vector);
    if plan.parent is Some {
        let dir_mode = plan.parent_facts->0.mode;
        assert((dir_mode & 0o777) & 0o022 == dir_mode & 0o022) by (bit_vector);
    }
}

/// Under the shared policy on Unix the owner and the kind of the entries are
/// still checked; only the permission bits are not.
pub proof fn law_shared_rendezvous_on_unix(plan: PlanView)
    requires
        parent_vetted(plan),
        file_accepted(plan),
        plan.policy is Shared,
        plan.host.platform is Unix,
    ensures
        plan.file_facts->0.is_file,
        plan.file_facts->0.owner == plan.host.user,
        plan.parent is Some ==> {
            &&& plan.parent_facts->0.is_dir
            &&& !plan.parent_facts->0.is_symlink
            &&& plan.parent_facts->0.owner == plan.host.user
        },
{
}

/// A directory that was hardened is closed to group and others.
pub proof fn law_hardened_mode_is_closed()
    ensures
        LOCK_DIRECTORY_MODE & 0o077 == 0,
        private_dir_mode(LOCK_DIRECTORY_MODE),
        private_file_mode(LOCK_FILE_MODE),
{
    assert(0o700u32 & 0o077 == 0) by (bit_vector);
    assert(0o700u32 & 0o022 == 0) by (bit_vector);
    assert(0o600u32 & 0o077 == 0) by (bit_vector);
    assert(0o600u32 & 0o600 == 0o600) by (bit_vector);
}

/// An opening starts with the inspection of the directory that the path names;
/// where it names none it starts with the file. Nothing has been found yet.
pub proof fn law_openings_start_at_the_directory(
    path: Seq<u8>,
    policy: PathSecurityPolicy,
    host: HostFacts,
    harden: bool,
)
    ensures
        ({
            let step = first_step(path, policy, host, harden);
            let plan = plan_of(step);
            &&& plan.path == path && plan.policy == policy && plan.host == host && plan.harden
                == harden
            &&& plan.parent_facts is None && plan.file_facts is None
            &&& !plan.parent_dacl_private && !plan.hardened && !plan.sealed && !plan.file_dacl_exact
            &&& match parent_path(host.platform, path) {
                Some(parent) => if parent.len() > 0 {
                    &&& step is InspectAncestor
                    &&& step->InspectAncestor_cursor == parent
                    &&& step->InspectAncestor_missing.len() == 0
                    &&& directory_of(plan) == parent
                } else {
                    step is OpenFinal && step->OpenFinal_attempt is Existing && directory_of(plan)
                        == path
                },
                None => step is OpenFinal && step->OpenFinal_attempt is Existing && directory_of(
                    plan,
                ) == path,
            }
        }),
{
}

/// An ancestor that is missing is kept for later, and the one above it is
/// inspected; at the top the making of directories begins with it.
pub proof fn law_missing_ancestors_are_climbed(
    plan: PlanView,
    missing: Seq<Seq<u8>>,
    cursor: Seq<u8>,
)
    ensures
        ({
            let next = next_ancestor(
                plan,
                missing,
                cursor,
                Err::<EntryFacts, IoErrorKind>(IoErrorKind::NotFound),
            );
            match parent_path(plan.host.platform, cursor) {
                Some(above) => if above.len() > 0 {
                    next == Some(
                        (StepView::InspectAncestor {
                            plan,
                            missing: missing.push(cursor),
                            cursor: above,
                        }),
                    )
                } else {
                    next == Some(
                        (StepView::CreateDirectory {
                            plan,
                            queue: missing,
                            directory: cursor,
                            stage: DirectoryStage::Create,
                        }),
                    )
                },
                None => next == Some(
                    (StepView::CreateDirectory {
                        plan,
                        queue: missing,
                        directory: cursor,
                        stage: DirectoryStage::Create,
                    }),
                ),
            }
        }),
{
    assert(missing.push(cursor).drop_last() =~= missing);
}

/// Below an ancestor that exists, the directories that were missing are made,
/// the one nearest to it first; with none missing the directory of the lock
/// file is checked. An ancestor that is no real directory, and one that cannot
/// be inspected, ends the opening.
pub proof fn law_existing_ancestors_end_the_climb(
    plan: PlanView,
    missing: Seq<Seq<u8>>,
    cursor: Seq<u8>,
    facts: EntryFacts,
    failed: IoErrorKind,
)
    ensures
        ({
            let next = next_ancestor(plan, missing, cursor, Ok::<EntryFacts, IoErrorKind>(facts));
            let genuine = facts.is_dir && !facts.is_symlink && (plan.host.platform is Windows
                ==> facts.attributes & 0x400 == 0);
            &&& !genuine ==> next is None
            &&& genuine && missing.len() == 0 ==> next == Some((StepView::CheckParent { plan }))
            &&& genuine && missing.len() > 0 ==> next == Some(
                (StepView::CreateDirectory {
                    plan,
                    queue: missing.take(missing.len() - 1),
                    directory: missing[missing.len() - 1],
                    stage: DirectoryStage::Create,
                }),
            )
        }),
        failed !is NotFound ==> next_ancestor(
            plan,
            missing,
            cursor,
            Err::<EntryFacts, IoErrorKind>(failed),
        ) is None,
{
    law_ancestors_have_to_be_real_directories(plan.host.platform, facts);
    if missing.len() > 0 {
        assert(missing.drop_last() =~= missing.take(missing.len() - 1));
    }
}

/// On Unix a directory is made, opened without following it, inspected and
/// restricted through that descriptor, and then the next one is made. That it
/// appeared meanwhile is no failure; every other failure ends the opening.
pub proof fn law_unix_directories_are_restricted(
    plan: PlanView,
    queue: Seq<Seq<u8>>,
    directory: Seq<u8>,
    stage: DirectoryStage,
    failed: IoErrorKind,
)
    requires
        plan.host.platform is Unix,
    ensures
        ({
            let done = Ok::<(), IoErrorKind>(());
            let opened = Some(
                (StepView::CreateDirectory {
                    plan,
                    queue,
                    directory,
                    stage: DirectoryStage::OpenNoFollow,
                }),
            );
            &&& next_creation(plan, queue, directory, DirectoryStage::Create, done) == opened
            &&& next_creation(
                plan,
                queue,
                directory,
                DirectoryStage::Create,
                Err::<(), IoErrorKind>(IoErrorKind::AlreadyExists),
            ) == opened
            &&& next_creation(plan, queue, directory, DirectoryStage::OpenNoFollow, done) == Some(
                (StepView::CreateDirectory { plan, queue, directory, stage: DirectoryStage::Stat }),
            )
            &&& next_creation(plan, queue, directory, DirectoryStage::Stat, done) == Some(
                (StepView::CreateDirectory {
                    plan,
                    queue,
                    directory,
                    stage: DirectoryStage::Restrict,
                }),
            )
            &&& next_creation(plan, queue, directory, DirectoryStage::Restrict, done) == Some(
                if queue.len() == 0 {
                    StepView::CheckParent { plan }
                } else {
                    StepView::CreateDirectory {
                        plan,
                        queue: queue.take(queue.len() - 1),
                        directory: queue[queue.len() - 1],
                        stage: DirectoryStage::Create,
                    }
                },
            )
            &&& failed !is AlreadyExists || stage !is Create ==> next_creation(
                plan,
                queue,
                directory,
                stage,
                Err::<(), IoErrorKind>(failed),
            ) is None
        }),
{
    if queue.len() > 0 {
        assert(queue.drop_last() =~= queue.take(queue.len() - 1));
    }
}

/// On Windows a directory is made and given the private list, which is then
/// read back. That it appeared meanwhile is no failure.
pub proof fn law_windows_directories_get_the_private_list(
    plan: PlanView,
    queue: Seq<Seq<u8>>,
    directory: Seq<u8>,
    stage: DirectoryStage,
    failed: IoErrorKind,
)
    requires
        plan.host.platform is Windows,
    ensures
        ({
            let done = Ok::<(), IoErrorKind>(());
            let made = Some(
                (StepView::CreateDirectory {
                    plan,
                    queue,
                    directory,
                    stage: DirectoryStage::ApplyDacl,
                }),
            );
            &&& next_creation(plan, queue, directory, DirectoryStage::Create, done) == made
            &&& next_creation(
                plan,
                queue,
                directory,
                DirectoryStage::Create,
                Err::<(), IoErrorKind>(IoErrorKind::AlreadyExists),
            ) == made
            &&& next_creation(plan, queue, directory, DirectoryStage::ApplyDacl, done) == Some(
                (StepView::VerifyDirectoryDacl { plan, queue, directory }),
            )
            &&& failed !is AlreadyExists || stage !is Create ==> next_creation(
                plan,
                queue,
                directory,
                stage,
                Err::<(), IoErrorKind>(failed),
            ) is None
        }),
{
}

/// On other platforms a directory is only made, and any failure ends the
/// opening.
pub proof fn law_other_directories_are_only_made(
    plan: PlanView,
    queue: Seq<Seq<u8>>,
    directory: Seq<u8>,
    stage: DirectoryStage,
    failed: IoErrorKind,
)
    requires
        plan.host.platform is Other,
    ensures
        next_creation(
            plan,
            queue,
            directory,
            DirectoryStage::Create,
            Ok::<(), IoErrorKind>(()),
        ) == Some(
            if queue.len() == 0 {
                StepView::CheckParent { plan }
            } else {
                StepView::CreateDirectory {
                    plan,
                    queue: queue.take(queue.len() - 1),
                    directory: queue[queue.len() - 1],
                    stage: DirectoryStage::Create,
                }
            },
        ),
        next_creation(plan, queue, directory, stage, Err::<(), IoErrorKind>(failed)) is None,
{
    if queue.len() > 0 {
        assert(queue.drop_last() =~= queue.take(queue.len() - 1));
    }
}

/// Of the directory of a lock file: on Unix it is refused unless it is a real
/// directory of the user, and under the private policy also where group or
/// others may write it. One that lets them in at all is hardened first where
/// that is asked for; else the file is opened next.
pub proof fn law_unix_parents_are_checked_and_hardened(plan: PlanView, facts: EntryFacts)
    requires
        plan.host.platform is Unix,
    ensures
        ({
            let found = PlanView { parent_facts: Some(facts), ..plan };
            let next = next_parent_check(plan, facts);
            let accepted = facts.is_dir && !facts.is_symlink && facts.owner == plan.host.user && (
            plan.policy is Private ==> facts.mode & 0o022 == 0);
            &&& !accepted ==> next is None
            &&& accepted && plan.harden && facts.mode & 0o077 != 0 ==> next == Some(
                (StepView::HardenParent { plan: found }),
            )
            &&& accepted && (!plan.harden || facts.mode & 0o077 == 0) ==> next == Some(
                (StepView::OpenFinal { plan: found, attempt: OpenAttempt::Existing }),
            )
        }),
{
    law_shared_policy_accepts_what_the_user_owns(plan.host, facts);
    law_private_policy_accepts_what_only_the_user_can_touch(plan.host, facts);
    law_open_directories_let_others_in(facts);
}

/// On Windows the directory is refused unless it is a real directory and no
/// reparse point; under the private policy its list is judged next, else the
/// file is opened.
pub proof fn law_windows_parents_are_checked(plan: PlanView, facts: EntryFacts)
    requires
        plan.host.platform is Windows,
    ensures
        ({
            let found = PlanView { parent_facts: Some(facts), ..plan };
            let next = next_parent_check(plan, facts);
            let accepted = facts.is_dir && !facts.is_symlink && facts.attributes & 0x400 == 0;
            &&& !accepted ==> next is None
            &&& accepted && plan.policy is Private ==> next == Some(
                (StepView::CheckParentDacl { plan: found }),
            )
            &&& accepted && plan.policy is Shared ==> next == Some(
                (StepView::OpenFinal { plan: found, attempt: OpenAttempt::Existing }),
            )
        }),
{
    law_windows_refuses_reparse_points(plan.host, plan.policy, facts);
}

/// On other platforms a real directory is enough.
pub proof fn law_other_parents_are_checked(plan: PlanView, facts: EntryFacts)
    requires
        plan.host.platform is Other,
    ensures
        !facts.is_dir || facts.is_symlink ==> next_parent_check(plan, facts) is None,
        facts.is_dir && !facts.is_symlink ==> next_parent_check(plan, facts) == Some(
            (StepView::OpenFinal {
                plan: PlanView { parent_facts: Some(facts), ..plan },
                attempt: OpenAttempt::Existing,
            }),
        ),
{
    law_other_platforms_look_at_the_kind(plan.host, plan.policy, facts);
}

/// The file that is there is tried first. Where there is none it is created,
/// and where it appeared meanwhile the one that is there is tried again; every
/// other failure ends the opening.
pub proof fn law_files_are_opened_or_created(
    plan: PlanView,
    attempt: OpenAttempt,
    failed: IoErrorKind,
)
    ensures
        ({
            let next = next_final(plan, attempt, Err::<(), IoErrorKind>(failed));
            &&& attempt is Existing && failed is NotFound ==> next == Some(
                (StepView::OpenFinal { plan, attempt: OpenAttempt::CreateExclusive }),
            )
            &&& attempt is CreateExclusive && failed is AlreadyExists ==> next == Some(
                (StepView::OpenFinal { plan, attempt: OpenAttempt::Existing }),
            )
            &&& attempt is Existing && failed !is NotFound ==> next is None
            &&& attempt is CreateExclusive && failed !is AlreadyExists ==> next is None
            &&& next_sealing(plan, attempt, Err::<(), IoErrorKind>(failed)) == next
        }),
{
}

/// An opened file is sealed first on Windows. A file that was created is
/// tightened before it is checked, by its mode on Unix and by its list on
/// Windows; a file that was there is checked at once.
pub proof fn law_opened_files_are_checked(plan: PlanView, attempt: OpenAttempt)
    ensures
        ({
            let done = Ok::<(), IoErrorKind>(());
            let opened = next_final(plan, attempt, done);
            let sealed = PlanView { sealed: true, ..plan };
            &&& plan.host.platform is Windows ==> {
                &&& opened == Some((StepView::SealHandle { plan, attempt }))
                &&& attempt is Existing ==> next_sealing(plan, attempt, done) == Some(
                    (StepView::CheckFile { plan: sealed }),
                )
                &&& attempt is CreateExclusive ==> next_sealing(plan, attempt, done) == Some(
                    (StepView::Tighten { plan: sealed, stage: TightenStage::ApplyDacl }),
                )
            }
            &&& plan.host.platform is Unix && attempt is CreateExclusive ==> opened == Some(
                (StepView::Tighten { plan, stage: TightenStage::Stat }),
            )
            &&& plan.host.platform is Unix && attempt is Existing ==> opened == Some(
                (StepView::CheckFile { plan }),
            )
            &&& plan.host.platform is Other ==> opened == Some((StepView::CheckFile { plan }))
        }),
        next_tightening(plan, TightenStage::Stat) == (StepView::Tighten {
            plan,
            stage: TightenStage::Restrict,
        }),
        next_tightening(plan, TightenStage::Restrict) == (StepView::CheckFile { plan }),
        next_tightening(plan, TightenStage::ApplyDacl) == (StepView::CheckFile { plan }),
{
}

/// On Unix an opened file is refused unless it is a regular file of the user,
/// and under the private policy also unless the user alone may read and write
/// it; an accepted one goes on to its identity.
pub proof fn law_unix_files_are_checked(plan: PlanView, facts: EntryFacts)
    requires
        plan.host.platform is Unix,
    ensures
        ({
            let next = next_file_check(plan, facts);
            let accepted = facts.is_file && facts.owner == plan.host.user && (
            plan.policy is Private ==> facts.mode & 0o677 == 0o600);
            &&& !accepted ==> next is None
            &&& accepted ==> next == Some(
                (StepView::Canonicalize { plan: PlanView { file_facts: Some(facts), ..plan } }),
            )
        }),
{
    law_shared_policy_accepts_what_the_user_owns(plan.host, facts);
    law_private_policy_accepts_what_only_the_user_can_touch(plan.host, facts);
}

/// On Windows an opened file is refused unless it is a regular file and no
/// reparse point; under the private policy it is given its list next. On other
/// platforms a regular file goes on to its identity.
pub proof fn law_other_files_are_checked(plan: PlanView, facts: EntryFacts)
    requires
        plan.host.platform !is Unix,
    ensures
        ({
            let found = PlanView { file_facts: Some(facts), ..plan };
            let next = next_file_check(plan, facts);
            let accepted = facts.is_file && (plan.host.platform is Windows ==> facts.attributes
                & 0x400 == 0);
            &&& !accepted ==> next is None
            &&& accepted && plan.host.platform is Windows && plan.policy is Private ==> next
                == Some((StepView::ApplyFileDacl { plan: found }))
            &&& accepted && (plan.host.platform is Other || plan.policy is Shared) ==> next == Some(
                (StepView::Canonicalize { plan: found }),
            )
        }),
{
    if plan.host.platform is Windows {
        law_windows_refuses_reparse_points(plan.host, plan.policy, facts);
    } else {
        law_other_platforms_look_at_the_kind(plan.host, plan.policy, facts);
    }
}

/// A list that is read back is refused with what was found of it: whether the
/// descriptor protects it, by bit 12, and whether its entries are the private
/// ones. At least one of the two is missing.
pub proof fn law_refused_lists_tell_what_was_found(facts: DaclFacts, error: LockError)
    requires
        dacl_refused(Ok::<DaclFacts, IoFailure>(facts), error),
    ensures
        error is DaclNotProtected,
        error->descriptor_protected <==> (facts.control >> 12) & 1 == 1,
        error->exact_private_aces == same_dacl_aces(facts.sddl@, facts.canonical@),
        !error->descriptor_protected || !error->exact_private_aces,
{
    let control = facts.control;
    assert((control & 0x1000 != 0) <==> (control >> 12) & 1 == 1) by (bit_vector);
}

/// Errors of the calls that make a directory or a file name the call that
/// failed.
pub proof fn law_stages_are_named_in_errors()
    ensures
        creation_call(DirectoryStage::Create) is CreateDirectory,
        creation_call(DirectoryStage::OpenNoFollow) is OpenDirectory,
        creation_call(DirectoryStage::Stat) is StatDirectory,
        creation_call(DirectoryStage::Restrict) is RestrictDirectory,
        creation_call(DirectoryStage::ApplyDacl) is ApplyDacl,
        tightening_call(TightenStage::Stat) is StatCreatedFile,
        tightening_call(TightenStage::Restrict) is RestrictFile,
        tightening_call(TightenStage::ApplyDacl) is ApplyDacl,
{
}

/// An opened file is for a request exactly where the path, the policy and the
/// platform are the same and hardening was asked for where the policy is
/// private.
pub proof fn law_opened_files_are_for_their_request(
    plan: PlanView,
    identity: Seq<u8>,
    request: RequestView,
    platform: Platform,
)
    ensures
        opened_for((StepView::Opened { plan, identity }), request, platform) <==> {
            &&& plan.path == request.path
            &&& plan.policy == request.path_security
            &&& plan.harden <==> request.path_security is Private
            &&& plan.host.platform == platform
        },
{
}

/// Decisions are made on what a call gave, or on the kind of its failure and
/// nothing else of it.
pub proof fn law_failures_are_judged_by_their_kind(facts: EntryFacts, failure: IoFailure)
    ensures
        answer_kind(Ok::<EntryFacts, IoFailure>(facts)) == Ok::<EntryFacts, IoErrorKind>(facts),
        answer_kind(Ok::<(), IoFailure>(())) == Ok::<(), IoErrorKind>(()),
        answer_kind(Err::<EntryFacts, IoFailure>(failure)) == Err::<EntryFacts, IoErrorKind>(
            failure.kind,
        ),
        answer_kind(Err::<(), IoFailure>(failure)) == Err::<(), IoErrorKind>(failure.kind),
{
}

} // verus!
