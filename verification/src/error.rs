//! Errors of the library and their exact wording.

use vstd::prelude::*;
use vstd::string::*;

use crate::path::{LockPath, Platform};
#[allow(unused_imports)]
use crate::path::shown;
use crate::span::Span;
use crate::text::append_decimal;
#[allow(unused_imports)]
use crate::text::{contains_part, decimal};

verus! {

/// The kinds of input/output failure that decisions depend on.
#[derive(Debug, Clone, Copy, PartialEq, Eq, Structural)]
pub enum IoErrorKind {
    NotFound,
    AlreadyExists,
    WouldBlock,
    PermissionDenied,
    Other,
}

/// A failed operating-system call: its kind, its error number where there is
/// one, and its description.
#[derive(Debug)]
pub struct IoFailure {
    pub kind: IoErrorKind,
    pub raw_os_error: Option<i32>,
    pub message: String,
}

/// The operating-system call that failed.
#[derive(Debug, Clone, Copy, PartialEq, Eq, Structural)]
pub enum IoStep {
    InspectDirectory,
    CreateDirectory,
    OpenDirectory,
    StatDirectory,
    RestrictDirectory,
    HardenDirectory,
    ApplyDacl,
    OpenFile,
    StatCreatedFile,
    RestrictFile,
    StatOpenedFile,
    Canonicalize,
    TryLock,
    Unlock,
}

impl IoStep {
    /// What was being done, without the path.
    pub open spec fn verb_text(self) -> Seq<char> {
        match self {
            IoStep::InspectDirectory => "inspecting lock directory "@,
            IoStep::CreateDirectory => "creating lock directory "@,
            IoStep::OpenDirectory => "opening lock directory "@,
            IoStep::StatDirectory => "stat lock directory "@,
            IoStep::RestrictDirectory => "setting lock directory mode "@,
            IoStep::HardenDirectory => "restricting lock directory "@,
            IoStep::ApplyDacl => "applying private DACL to "@,
            IoStep::OpenFile => "opening lock file "@,
            IoStep::StatCreatedFile => "stat created lock file "@,
            IoStep::RestrictFile => "setting lock file mode "@,
            IoStep::StatOpenedFile => "stat opened lock file"@,
            IoStep::Canonicalize => "canonicalizing lock identity "@,
            IoStep::TryLock => "trying operating-system lock "@,
            IoStep::Unlock => "unlocking descriptor lock "@,
        }
    }

    /// What was being done, and to which path.
    pub open spec fn text(self, platform: Platform, path: Seq<u8>) -> Seq<char> {
        match self {
            IoStep::StatOpenedFile => self.verb_text(),
            IoStep::HardenDirectory => self.verb_text() + shown(platform, path) + " to mode 0700"@,
            _ => self.verb_text() + shown(platform, path),
        }
    }

    fn verb(self) -> (verb: String)
        ensures
            verb@ == self.verb_text(),
    {
        match self {
            IoStep::InspectDirectory => "inspecting lock directory ".to_owned(),
            IoStep::CreateDirectory => "creating lock directory ".to_owned(),
            IoStep::OpenDirectory => "opening lock directory ".to_owned(),
            IoStep::StatDirectory => "stat lock directory ".to_owned(),
            IoStep::RestrictDirectory => "setting lock directory mode ".to_owned(),
            IoStep::HardenDirectory => "restricting lock directory ".to_owned(),
            IoStep::ApplyDacl => "applying private DACL to ".to_owned(),
            IoStep::OpenFile => "opening lock file ".to_owned(),
            IoStep::StatCreatedFile => "stat created lock file ".to_owned(),
            IoStep::RestrictFile => "setting lock file mode ".to_owned(),
            IoStep::StatOpenedFile => "stat opened lock file".to_owned(),
            IoStep::Canonicalize => "canonicalizing lock identity ".to_owned(),
            IoStep::TryLock => "trying operating-system lock ".to_owned(),
            IoStep::Unlock => "unlocking descriptor lock ".to_owned(),
        }
    }

    /// What was being done, and to which path.
    pub fn describe(self, platform: Platform, path: &LockPath) -> (text: String)
        ensures
            text@ == self.text(platform, path@),
    {
        let mut text = self.verb();
        match self {
            IoStep::StatOpenedFile => {},
            IoStep::HardenDirectory => {
                text.append(path.display(platform).as_str());
                text.append(" to mode 0700");
            },
            _ => {
                text.append(path.display(platform).as_str());
            },
        }
        text
    }
}

/// Why a path, a lock or a waiter was refused.
#[derive(Debug)]
pub enum LockError {
    /// The lock path has a `..` component.
    ParentDirComponent,
    DirectoryIsSymlink,
    ParentNotDirectory,
    DirectoryIsReparsePoint,
    DirectoryNotOwned,
    DirectoryWritable,
    /// The directory to be hardened is not a directory itself.
    DirectoryNotReal { path: LockPath },
    NotRegularFile,
    FileNotOwned,
    FileNotPrivate,
    FileIsReparsePoint,
    FinalComponentIsSymlink { path: LockPath },
    DaclNotPrivate,
    DaclNotProtected { descriptor_protected: bool, exact_private_aces: bool },
    /// An operating-system call failed.
    Io { step: IoStep, path: LockPath, failure: IoFailure },
    /// A platform query failed, with its own description only.
    Query { failure: IoFailure },
    /// The file that was opened is not that of the request.
    ForeignRendezvous { opened: LockPath, requested: LockPath },
    /// The blocking kernel request failed.
    Wait { operation: String, path: LockPath, failure: IoFailure },
    /// The thread holds a lock that comes later in the hierarchy.
    OrderInversion {
        operation: String,
        rank: u16,
        path: LockPath,
        held_rank: u16,
        held_path: LockPath,
    },
    /// The process already owns or waits for the lock.
    SameProcess { path: LockPath, operation: String },
    /// Every background waiter that the manager allows is in use.
    WaiterLimit { active: usize, limit: usize },
    /// A waiter could not be started because the limit is reached.
    StartingWaiter { operation: String, active: usize, limit: usize },
    TimedOut { timeout: Span, operation: String, path: LockPath },
    DuplicateIdentity { path: LockPath },
    /// The waiter has handed out its result before.
    AlreadyCompleted { label: String },
    /// The acquisition of a background waiter panicked.
    WaiterPanicked { label: String, payload: String },
    /// The worker thread itself panicked.
    WorkerPanicked { label: String },
    SpawnFailed { label: String, failure: IoFailure },
}

pub open spec fn bool_text(value: bool) -> Seq<char> {
    if value {
        "true"@
    } else {
        "false"@
    }
}

fn append_bool(out: &mut String, value: bool)
    ensures
        final(out)@ == old(out)@ + bool_text(value),
{
    if value {
        out.append("true");
    } else {
        out.append("false");
    }
}

pub open spec fn limit_text(active: usize, limit: usize) -> Seq<char> {
    "background lock waiter limit reached ("@ + decimal(active as nat) + "/"@ + decimal(
        limit as nat,
    ) + ")"@
}

fn render_limit(active: usize, limit: usize) -> (text: String)
    ensures
        text@ == limit_text(active, limit),
{
    let mut text = "background lock waiter limit reached (".to_owned();
    append_decimal(&mut text, active as u128);
    text.append("/");
    append_decimal(&mut text, limit as u128);
    text.append(")");
    text
}

impl LockError {
    /// The outermost description of the error.
    pub open spec fn message_text(self, platform: Platform) -> Seq<char> {
        match self {
            LockError::ParentDirComponent => "lock path must not contain `..` components"@,
            LockError::DirectoryIsSymlink => "lock directory is a symlink; refusing substitution"@,
            LockError::ParentNotDirectory => "lock parent is not a directory"@,
            LockError::DirectoryIsReparsePoint =>
                "lock directory is a reparse point or junction; refusing substitution"@,
            LockError::DirectoryNotOwned => "lock directory is not owned by the current user"@,
            LockError::DirectoryWritable =>
                "lock directory is group- or world-writable; refusing under the private path policy"@,
            LockError::DirectoryNotReal { path } => "lock directory "@ + shown(platform, path@)
                + " is not a real directory"@,
            LockError::NotRegularFile => "lock path is not a regular file"@,
            LockError::FileNotOwned => "lock file is not owned by the current user"@,
            LockError::FileNotPrivate =>
                "lock file permissions are not owner-only; refusing to use a group- or world-accessible rendezvous"@,
            LockError::FileIsReparsePoint =>
                "lock path is a reparse point or junction; refusing substitution"@,
            LockError::FinalComponentIsSymlink { path } =>
                "lock path final component is a symlink; refusing substitution ("@ + shown(platform, 
                    path@,
                ) + ")"@,
            LockError::DaclNotPrivate =>
                "lock path DACL is not user-private; refusing under the private path policy"@,
            LockError::DaclNotProtected { descriptor_protected, exact_private_aces } =>
                "lock path DACL is not protected and user-private; refusing under the private path policy (descriptor_protected="@
                    + bool_text(descriptor_protected) + ", exact_private_aces="@ + bool_text(
                    exact_private_aces,
                ) + ")"@,
            LockError::Io { step, path, failure } => step.text(platform, path@),
            LockError::Query { failure } => failure.message@,
            LockError::ForeignRendezvous { opened, requested } => "lock file "@ + shown(
                platform,
                opened@,
            ) + " was not opened for the request at "@ + shown(platform, requested@),
            LockError::Wait { operation, path, failure } => "waiting for `"@ + operation@
                + "` through operating-system lock "@ + shown(platform, path@),
            LockError::OrderInversion { operation, rank, path, held_rank, held_path } =>
                "lock-order inversion while starting `"@ + operation@
                    + "`: requested class rank "@ + decimal(rank as nat) + " at "@ + shown(platform, 
                    path@,
                ) + " while this thread already holds class rank "@ + decimal(held_rank as nat)
                    + " at "@ + shown(platform, held_path@)
                    + "; acquire locks in ascending class/path order or use acquire_many_blocking"@,
            LockError::SameProcess { path, operation } =>
                "same process already owns or is waiting for canonical lock "@ + shown(platform, path@)
                    + " while starting `"@ + operation@
                    + "`; use SameProcessPolicy::Queue only for intentional independent contention"@,
            LockError::WaiterLimit { active, limit } => limit_text(active, limit),
            LockError::StartingWaiter { operation, active, limit } => "starting waiter for `"@
                + operation@ + "`"@,
            LockError::TimedOut { timeout, operation, path } => "timed out after "@
                + timeout.text() + " waiting for `"@ + operation@ + "` at "@ + shown(platform, path@),
            LockError::DuplicateIdentity { path } =>
                "duplicate canonical lock identity in one lock set: "@ + shown(platform, path@),
            LockError::AlreadyCompleted { label } => "background lock waiter `"@ + label@
                + "` already completed"@,
            LockError::WaiterPanicked { label, payload } => "background lock waiter `"@ + label@
                + "` panicked: "@ + payload@,
            LockError::WorkerPanicked { label } => "background lock waiter `"@ + label@
                + "` panicked"@,
            LockError::SpawnFailed { label, failure } =>
                "spawning background lock waiter for `"@ + label@ + "`"@,
        }
    }

    /// The underlying cause, where the description only gives the context.
    pub open spec fn cause_text(self) -> Option<Seq<char>> {
        match self {
            LockError::Io { failure, .. } => Some(failure.message@),
            LockError::Wait { failure, .. } => Some(failure.message@),
            LockError::SpawnFailed { failure, .. } => Some(failure.message@),
            LockError::StartingWaiter { active, limit, .. } => Some(limit_text(active, limit)),
            _ => None,
        }
    }

    /// The description followed by its cause.
    pub open spec fn report_text(self, platform: Platform) -> Seq<char> {
        match self.cause_text() {
            Some(cause) => self.message_text(platform) + ": "@ + cause,
            None => self.message_text(platform),
        }
    }

    /// The outermost description of the error.
    pub fn message(&self, platform: Platform) -> (text: String)
        ensures
            text@ == self.message_text(platform),
    {
        match self {
            LockError::ParentDirComponent => "lock path must not contain `..` components".to_owned(),
            LockError::DirectoryIsSymlink =>
                "lock directory is a symlink; refusing substitution".to_owned(),
            LockError::ParentNotDirectory => "lock parent is not a directory".to_owned(),
            LockError::DirectoryIsReparsePoint =>
                "lock directory is a reparse point or junction; refusing substitution".to_owned(),
            LockError::DirectoryNotOwned =>
                "lock directory is not owned by the current user".to_owned(),
            LockError::DirectoryWritable =>
                "lock directory is group- or world-writable; refusing under the private path policy".to_owned(),
            LockError::DirectoryNotReal { path } => {
                let mut text = "lock directory ".to_owned();
                text.append(path.display(platform).as_str());
                text.append(" is not a real directory");
                text
            },
            LockError::NotRegularFile => "lock path is not a regular file".to_owned(),
            LockError::FileNotOwned => "lock file is not owned by the current user".to_owned(),
            LockError::FileNotPrivate =>
                "lock file permissions are not owner-only; refusing to use a group- or world-accessible rendezvous".to_owned(),
            LockError::FileIsReparsePoint =>
                "lock path is a reparse point or junction; refusing substitution".to_owned(),
            LockError::FinalComponentIsSymlink { path } => {
                let mut text =
                    "lock path final component is a symlink; refusing substitution (".to_owned();
                text.append(path.display(platform).as_str());
                text.append(")");
                text
            },
            LockError::DaclNotPrivate =>
                "lock path DACL is not user-private; refusing under the private path policy".to_owned(),
            LockError::DaclNotProtected { descriptor_protected, exact_private_aces } => {
                let mut text =
                    "lock path DACL is not protected and user-private; refusing under the private path policy (descriptor_protected=".to_owned();
                append_bool(&mut text, *descriptor_protected);
                text.append(", exact_private_aces=");
                append_bool(&mut text, *exact_private_aces);
                text.append(")");
                text
            },
            LockError::Io { step, path, failure } => step.describe(platform, path),
            LockError::Query { failure } => failure.message.as_str().to_owned(),
            LockError::ForeignRendezvous { opened, requested } => {
                let mut text = "lock file ".to_owned();
                text.append(opened.display(platform).as_str());
                text.append(" was not opened for the request at ");
                text.append(requested.display(platform).as_str());
                text
            },
            LockError::Wait { operation, path, failure } => {
                let mut text = "waiting for `".to_owned();
                text.append(operation.as_str());
                text.append("` through operating-system lock ");
                text.append(path.display(platform).as_str());
                text
            },
            LockError::OrderInversion { operation, rank, path, held_rank, held_path } => {
                let mut text = "lock-order inversion while starting `".to_owned();
                text.append(operation.as_str());
                text.append("`: requested class rank ");
                append_decimal(&mut text, *rank as u128);
                text.append(" at ");
                text.append(path.display(platform).as_str());
                text.append(" while this thread already holds class rank ");
                append_decimal(&mut text, *held_rank as u128);
                text.append(" at ");
                text.append(held_path.display(platform).as_str());
                text.append(
                    "; acquire locks in ascending class/path order or use acquire_many_blocking",
                );
                text
            },
            LockError::SameProcess { path, operation } => {
                let mut text =
                    "same process already owns or is waiting for canonical lock ".to_owned();
                text.append(path.display(platform).as_str());
                text.append(" while starting `");
                text.append(operation.as_str());
                text.append(
                    "`; use SameProcessPolicy::Queue only for intentional independent contention",
                );
                text
            },
            LockError::WaiterLimit { active, limit } => render_limit(*active, *limit),
            LockError::StartingWaiter { operation, active, limit } => {
                let mut text = "starting waiter for `".to_owned();
                text.append(operation.as_str());
                text.append("`");
                text
            },
            LockError::TimedOut { timeout, operation, path } => {
                let mut text = "timed out after ".to_owned();
                text.append(timeout.render().as_str());
                text.append(" waiting for `");
                text.append(operation.as_str());
                text.append("` at ");
                text.append(path.display(platform).as_str());
                text
            },
            LockError::DuplicateIdentity { path } => {
                let mut text = "duplicate canonical lock identity in one lock set: ".to_owned();
                text.append(path.display(platform).as_str());
                text
            },
            LockError::AlreadyCompleted { label } => {
                let mut text = "background lock waiter `".to_owned();
                text.append(label.as_str());
                text.append("` already completed");
                text
            },
            LockError::WaiterPanicked { label, payload } => {
                let mut text = "background lock waiter `".to_owned();
                text.append(label.as_str());
                text.append("` panicked: ");
                text.append(payload.as_str());
                text
            },
            LockError::WorkerPanicked { label } => {
                let mut text = "background lock waiter `".to_owned();
                text.append(label.as_str());
                text.append("` panicked");
                text
            },
            LockError::SpawnFailed { label, failure } => {
                let mut text = "spawning background lock waiter for `".to_owned();
                text.append(label.as_str());
                text.append("`");
                text
            },
        }
    }

    /// The underlying cause, where the description only gives the context.
    pub fn cause(&self) -> (text: Option<String>)
        ensures
            match text {
                Some(cause) => self.cause_text() == Some(cause@),
                None => self.cause_text() is None,
            },
    {
        match self {
            LockError::Io { failure, .. } => Some(failure.message.as_str().to_owned()),
            LockError::Wait { failure, .. } => Some(failure.message.as_str().to_owned()),
            LockError::SpawnFailed { failure, .. } => Some(failure.message.as_str().to_owned()),
            LockError::StartingWaiter { active, limit, .. } => Some(render_limit(*active, *limit)),
            _ => None,
        }
    }

    /// The description followed by its cause.
    pub fn report(&self, platform: Platform) -> (text: String)
        ensures
            text@ == self.report_text(platform),
    {
        let mut text = self.message(platform);
        if let Some(cause) = self.cause() {
            text.append(": ");
            text.append(cause.as_str());
        }
        text
    }
}

/// The text holds this part as a whole.
proof fn lemma_holds(text: Seq<char>, before: Seq<char>, part: Seq<char>, after: Seq<char>)
    requires
        text == before + part + after,
    ensures
        contains_part(text, part),
{
    let at = before.len() as int;
    assert(text.subrange(at, at + part.len()) =~= part);
}

/// The description of a failed call names the path of the call in full, except
/// for the call on an open file, which needs none.
pub proof fn law_failed_calls_name_their_path(
    step: IoStep,
    platform: Platform,
    path: LockPath,
    failure: IoFailure,
)
    requires
        step !is StatOpenedFile,
    ensures
        contains_part(
            (LockError::Io { step, path, failure }).message_text(platform),
            shown(platform, path@),
        ),
        (LockError::Io { step, path, failure }).cause_text() == Some(failure.message@),
{
    let text = (LockError::Io { step, path, failure }).message_text(platform);
    let named = shown(platform, path@);
    let none = Seq::<char>::empty();
    if step is HardenDirectory {
        lemma_holds(text, step.verb_text(), named, " to mode 0700"@);
    } else {
        assert(text =~= step.verb_text() + named + none);
        lemma_holds(text, step.verb_text(), named, none);
    }
}

/// A report is the description followed by the whole cause, where there is one.
pub proof fn law_reports_end_with_the_cause(error: LockError, platform: Platform)
    ensures
        match error.cause_text() {
            Some(cause) => error.report_text(platform) == error.message_text(platform) + ": "@
                + cause,
            None => error.report_text(platform) == error.message_text(platform),
        },
        match error {
            LockError::Wait { failure, .. } => error.cause_text() == Some(failure.message@),
            LockError::SpawnFailed { failure, .. } => error.cause_text() == Some(failure.message@),
            LockError::StartingWaiter { active, limit, .. } => error.cause_text() == Some(
                "background lock waiter limit reached ("@ + decimal(active as nat) + "/"@ + decimal(
                    limit as nat,
                ) + ")"@,
            ),
            LockError::WaiterLimit { active, limit } => error.message_text(platform)
                == "background lock waiter limit reached ("@ + decimal(active as nat) + "/"@
                + decimal(limit as nat) + ")"@,
            _ => true,
        },
{
}

/// An order inversion names the operation, and for each of the two locks its
/// rank and its path together.
pub proof fn law_inversions_name_both_locks(
    operation: String,
    rank: u16,
    path: LockPath,
    held_rank: u16,
    held_path: LockPath,
    platform: Platform,
)
    ensures
        ({
            let text = (LockError::OrderInversion {
                operation,
                rank,
                path,
                held_rank,
                held_path,
            }).message_text(platform);
            &&& contains_part(text, "lock-order inversion while starting `"@ + operation@)
            &&& contains_part(
                text,
                "`: requested class rank "@ + decimal(rank as nat) + " at "@ + shown(
                    platform,
                    path@,
                ),
            )
            &&& contains_part(
                text,
                " while this thread already holds class rank "@ + decimal(held_rank as nat)
                    + " at "@ + shown(platform, held_path@),
            )
        }),
{
    let text = (LockError::OrderInversion {
        operation,
        rank,
        path,
        held_rank,
        held_path,
    }).message_text(platform);
    let start = "lock-order inversion while starting `"@ + operation@;
    let wanted = "`: requested class rank "@ + decimal(rank as nat) + " at "@ + shown(
        platform,
        path@,
    );
    let held = " while this thread already holds class rank "@ + decimal(held_rank as nat)
        + " at "@ + shown(platform, held_path@);
    let advice = "; acquire locks in ascending class/path order or use acquire_many_blocking"@;
    let none = Seq::<char>::empty();
    assert(text =~= none + start + (wanted + held + advice));
    lemma_holds(text, none, start, wanted + held + advice);
    assert(text =~= start + wanted + (held + advice));
    lemma_holds(text, start, wanted, held + advice);
    assert(text =~= (start + wanted) + held + advice);
    lemma_holds(text, start + wanted, held, advice);
}

/// Errors about an acquisition name its operation and the path of its lock in
/// full.
pub proof fn law_acquisition_errors_name_operation_and_path(
    operation: String,
    path: LockPath,
    failure: IoFailure,
    timeout: Span,
    platform: Platform,
)
    ensures
        ({
            let text = (LockError::Wait { operation, path, failure }).message_text(platform);
            contains_part(text, "waiting for `"@ + operation@ + "` through operating-system lock "@)
                && contains_part(
                text,
                "` through operating-system lock "@ + shown(platform, path@),
            )
        }),
        ({
            let text = (LockError::SameProcess { path, operation }).message_text(platform);
            contains_part(
                text,
                "same process already owns or is waiting for canonical lock "@ + shown(
                    platform,
                    path@,
                ),
            ) && contains_part(text, " while starting `"@ + operation@)
        }),
        ({
            let text = (LockError::TimedOut { timeout, operation, path }).message_text(platform);
            contains_part(text, "timed out after "@ + timeout.text()) && contains_part(
                text,
                " waiting for `"@ + operation@ + "` at "@ + shown(platform, path@),
            )
        }),
        contains_part(
            (LockError::DuplicateIdentity { path }).message_text(platform),
            shown(platform, path@),
        ),
        contains_part(
            (LockError::FinalComponentIsSymlink { path }).message_text(platform),
            shown(platform, path@),
        ),
        contains_part(
            (LockError::DirectoryNotReal { path }).message_text(platform),
            shown(platform, path@),
        ),
{
    let named = shown(platform, path@);
    let none = Seq::<char>::empty();
    let wait = (LockError::Wait { operation, path, failure }).message_text(platform);
    let through = "` through operating-system lock "@;
    assert(wait =~= none + ("waiting for `"@ + operation@ + through) + named);
    lemma_holds(wait, none, "waiting for `"@ + operation@ + through, named);
    assert(wait =~= ("waiting for `"@ + operation@) + (through + named) + none);
    lemma_holds(wait, "waiting for `"@ + operation@, through + named, none);
    let same = (LockError::SameProcess { path, operation }).message_text(platform);
    let owns = "same process already owns or is waiting for canonical lock "@ + named;
    let starting = " while starting `"@ + operation@;
    let advice = "`; use SameProcessPolicy::Queue only for intentional independent contention"@;
    assert(same =~= none + owns + (starting + advice));
    lemma_holds(same, none, owns, starting + advice);
    assert(same =~= owns + starting + advice);
    lemma_holds(same, owns, starting, advice);
    let late = (LockError::TimedOut { timeout, operation, path }).message_text(platform);
    let after = "timed out after "@ + timeout.text();
    let waiting = " waiting for `"@ + operation@ + "` at "@ + named;
    assert(late =~= none + after + waiting);
    lemma_holds(late, none, after, waiting);
    assert(late =~= after + waiting + none);
    lemma_holds(late, after, waiting, none);
    let twice = (LockError::DuplicateIdentity { path }).message_text(platform);
    let duplicate = "duplicate canonical lock identity in one lock set: "@;
    assert(twice =~= duplicate + named + none);
    lemma_holds(twice, duplicate, named, none);
    lemma_holds(
        (LockError::FinalComponentIsSymlink { path }).message_text(platform),
        "lock path final component is a symlink; refusing substitution ("@,
        named,
        ")"@,
    );
    lemma_holds(
        (LockError::DirectoryNotReal { path }).message_text(platform),
        "lock directory "@,
        named,
        " is not a real directory"@,
    );
}

/// Errors about a background waiter name its label or operation in full, and
/// the one of a panic also what the panic said.
pub proof fn law_waiter_errors_name_their_waiter(
    label: String,
    payload: String,
    failure: IoFailure,
    active: usize,
    limit: usize,
    platform: Platform,
)
    ensures
        contains_part(
            (LockError::AlreadyCompleted { label }).message_text(platform),
            "background lock waiter `"@ + label@ + "` already completed"@,
        ),
        contains_part(
            (LockError::WaiterPanicked { label, payload }).message_text(platform),
            "background lock waiter `"@ + label@ + "` panicked: "@ + payload@,
        ),
        contains_part(
            (LockError::WorkerPanicked { label }).message_text(platform),
            "background lock waiter `"@ + label@ + "` panicked"@,
        ),
        contains_part(
            (LockError::SpawnFailed { label, failure }).message_text(platform),
            "spawning background lock waiter for `"@ + label@,
        ),
        contains_part(
            (LockError::StartingWaiter { operation: label, active, limit }).message_text(platform),
            "starting waiter for `"@ + label@,
        ),
{
    let none = Seq::<char>::empty();
    let completed = (LockError::AlreadyCompleted { label }).message_text(platform);
    assert(completed =~= none + completed + none);
    lemma_holds(completed, none, completed, none);
    let panicked = (LockError::WaiterPanicked { label, payload }).message_text(platform);
    assert(panicked =~= none + panicked + none);
    lemma_holds(panicked, none, panicked, none);
    let worker = (LockError::WorkerPanicked { label }).message_text(platform);
    assert(worker =~= none + worker + none);
    lemma_holds(worker, none, worker, none);
    let spawn = (LockError::SpawnFailed { label, failure }).message_text(platform);
    assert(spawn =~= none + ("spawning background lock waiter for `"@ + label@) + "`"@);
    lemma_holds(spawn, none, "spawning background lock waiter for `"@ + label@, "`"@);
    let starting = (LockError::StartingWaiter { operation: label, active, limit }).message_text(
        platform,
    );
    assert(starting =~= none + ("starting waiter for `"@ + label@) + "`"@);
    lemma_holds(starting, none, "starting waiter for `"@ + label@, "`"@);
}

/// A list that is not the private one is reported with both findings, each in
/// words.
pub proof fn law_list_errors_tell_both_findings(
    descriptor_protected: bool,
    exact_private_aces: bool,
    platform: Platform,
)
    ensures
        ({
            let text = (LockError::DaclNotProtected {
                descriptor_protected,
                exact_private_aces,
            }).message_text(platform);
            contains_part(
                text,
                (if descriptor_protected {
                    "true"@
                } else {
                    "false"@
                }) + ", exact_private_aces="@ + (if exact_private_aces {
                    "true"@
                } else {
                    "false"@
                }),
            )
        }),
{
    let text = (LockError::DaclNotProtected {
        descriptor_protected,
        exact_private_aces,
    }).message_text(platform);
    let start =
        "lock path DACL is not protected and user-private; refusing under the private path policy (descriptor_protected="@;
    let part = bool_text(descriptor_protected) + ", exact_private_aces="@ + bool_text(
        exact_private_aces,
    );
    assert(text =~= start + part + ")"@);
    lemma_holds(text, start, part, ")"@);
}

/// Refusals that concern nothing but the kind, owner or permissions of an entry
/// say which of them it was, in the same words on every platform.
pub proof fn law_refusals_say_what_was_wrong(platform: Platform)
    ensures
        (LockError::ParentDirComponent).message_text(platform)
            == "lock path must not contain `..` components"@,
        (LockError::DirectoryIsSymlink).message_text(platform)
            == "lock directory is a symlink; refusing substitution"@,
        (LockError::ParentNotDirectory).message_text(platform)
            == "lock parent is not a directory"@,
        (LockError::DirectoryIsReparsePoint).message_text(platform)
            == "lock directory is a reparse point or junction; refusing substitution"@,
        (LockError::DirectoryNotOwned).message_text(platform)
            == "lock directory is not owned by the current user"@,
        (LockError::DirectoryWritable).message_text(platform)
            == "lock directory is group- or world-writable; refusing under the private path policy"@,
        (LockError::NotRegularFile).message_text(platform)
            == "lock path is not a regular file"@,
        (LockError::FileNotOwned).message_text(platform)
            == "lock file is not owned by the current user"@,
        (LockError::FileNotPrivate).message_text(platform)
            == "lock file permissions are not owner-only; refusing to use a group- or world-accessible rendezvous"@,
        (LockError::FileIsReparsePoint).message_text(platform)
            == "lock path is a reparse point or junction; refusing substitution"@,
        (LockError::DaclNotPrivate).message_text(platform)
            == "lock path DACL is not user-private; refusing under the private path policy"@,
        (LockError::ParentDirComponent).cause_text() is None,
        (LockError::DirectoryIsSymlink).cause_text() is None,
        (LockError::ParentNotDirectory).cause_text() is None,
        (LockError::DirectoryIsReparsePoint).cause_text() is None,
        (LockError::DirectoryNotOwned).cause_text() is None,
        (LockError::DirectoryWritable).cause_text() is None,
        (LockError::NotRegularFile).cause_text() is None,
        (LockError::FileNotOwned).cause_text() is None,
        (LockError::FileNotPrivate).cause_text() is None,
        (LockError::FileIsReparsePoint).cause_text() is None,
        (LockError::DaclNotPrivate).cause_text() is None,
{
}

/// A failed call is described by what was being done and the path that it was
/// done to; the check of an opened file has no path, and hardening names the
/// mode as well.
pub proof fn law_failed_calls_are_described(platform: Platform, path: Seq<u8>)
    ensures
        IoStep::InspectDirectory.text(platform, path) == "inspecting lock directory "@ + shown(platform, path),
        IoStep::CreateDirectory.text(platform, path) == "creating lock directory "@ + shown(platform, path),
        IoStep::OpenDirectory.text(platform, path) == "opening lock directory "@ + shown(platform, path),
        IoStep::StatDirectory.text(platform, path) == "stat lock directory "@ + shown(platform, path),
        IoStep::RestrictDirectory.text(platform, path) == "setting lock directory mode "@ + shown(platform, path),
        IoStep::ApplyDacl.text(platform, path) == "applying private DACL to "@ + shown(platform, path),
        IoStep::OpenFile.text(platform, path) == "opening lock file "@ + shown(platform, path),
        IoStep::StatCreatedFile.text(platform, path) == "stat created lock file "@ + shown(platform, path),
        IoStep::RestrictFile.text(platform, path) == "setting lock file mode "@ + shown(platform, path),
        IoStep::Canonicalize.text(platform, path) == "canonicalizing lock identity "@ + shown(platform, path),
        IoStep::TryLock.text(platform, path) == "trying operating-system lock "@ + shown(platform, path),
        IoStep::Unlock.text(platform, path) == "unlocking descriptor lock "@ + shown(platform, path),
        IoStep::HardenDirectory.text(platform, path) == "restricting lock directory "@ + shown(
            platform,
            path,
        ) + " to mode 0700"@,
        IoStep::StatOpenedFile.text(platform, path) == "stat opened lock file"@,
{
}

/// The limit of background waiters is reported with the waiters in use and the
/// limit, in decimal, alone and as the cause of a waiter that could not start.
pub proof fn law_limits_are_reported_in_numbers(
    operation: String,
    active: usize,
    limit: usize,
    platform: Platform,
)
    ensures
        (LockError::WaiterLimit { active, limit }).message_text(platform)
            == "background lock waiter limit reached ("@ + decimal(active as nat) + "/"@ + decimal(
            limit as nat,
        ) + ")"@,
        (LockError::StartingWaiter { operation, active, limit }).cause_text() == Some(
            "background lock waiter limit reached ("@ + decimal(active as nat) + "/"@ + decimal(
                limit as nat,
            ) + ")"@,
        ),
{
}

/// A file that was opened for something else is reported with both paths.
pub proof fn law_foreign_files_are_reported_with_both_paths(
    opened: LockPath,
    requested: LockPath,
    platform: Platform,
)
    ensures
        (LockError::ForeignRendezvous { opened, requested }).message_text(platform)
            == "lock file "@ + shown(platform, opened@) + " was not opened for the request at "@
            + shown(platform, requested@),
{
}

} // verus!
