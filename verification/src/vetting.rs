//! Judgements about directories, files and access-control lists that are found
//! on the way to a lock file.

use vstd::prelude::*;

use crate::error::{IoFailure, IoStep, LockError};
use crate::path::{LockPath, Platform};
#[allow(unused_imports)]
use crate::path::has_parent_component;
use crate::policy::{
    descriptor_is_protected, unix_private_dir_mode, unix_private_file_mode, windows_attributes_indicate_reparse,
    PathSecurityPolicy,
};
#[allow(unused_imports)]
use crate::policy::{control_protects, indicates_reparse, private_dir_mode, private_file_mode};
use crate::sddl::{sddl_has_same_dacl_aces, sddl_is_user_private};
#[allow(unused_imports)]
use crate::sddl::{same_dacl_aces, user_private};

verus! {

/// Mode of lock directories.
pub const LOCK_DIRECTORY_MODE: u32 = 0o700;

/// Mode of lock files.
pub const LOCK_FILE_MODE: u32 = 0o600;

/// What the file system says about an entry, without following it.
#[derive(Debug, Clone, Copy, PartialEq, Eq, Structural)]
pub struct EntryFacts {
    pub is_symlink: bool,
    pub is_dir: bool,
    pub is_file: bool,
    /// Owning user on Unix.
    pub owner: u32,
    /// Mode on Unix.
    pub mode: u32,
    /// File attributes on Windows.
    pub attributes: u32,
}

/// What is known about the host and the process.
#[derive(Debug, Clone, Copy, PartialEq, Eq, Structural)]
pub struct HostFacts {
    pub platform: Platform,
    /// Effective user on Unix.
    pub user: u32,
    /// Error number of a refused symbolic link, where the host has one.
    pub symlink_error: Option<i32>,
}

/// The access-control list of a directory on Windows.
#[derive(Debug)]
pub struct DirectoryList {
    /// The list as text.
    pub sddl: String,
    /// The current user.
    pub sid: String,
}

/// The access-control list of something that was given the private list.
#[derive(Debug)]
pub struct DaclFacts {
    /// The list as text.
    pub sddl: String,
    /// The list that is private to the current user, as the system renders it.
    pub canonical: String,
    /// The descriptor's control bits.
    pub control: u16,
}

/// Why an existing ancestor cannot carry a lock directory.
pub open spec fn ancestor_fault(platform: Platform, facts: EntryFacts) -> Option<LockError> {
    if facts.is_symlink {
        Some(LockError::DirectoryIsSymlink)
    } else if !facts.is_dir {
        Some(LockError::ParentNotDirectory)
    } else if platform is Windows && indicates_reparse(facts.attributes) {
        Some(LockError::DirectoryIsReparsePoint)
    } else {
        None
    }
}

/// Why the immediate parent of a lock file is refused.
pub open spec fn directory_fault(
    host: HostFacts,
    policy: PathSecurityPolicy,
    facts: EntryFacts,
) -> Option<LockError> {
    if facts.is_symlink {
        Some(LockError::DirectoryIsSymlink)
    } else if !facts.is_dir {
        Some(LockError::ParentNotDirectory)
    } else {
        match host.platform {
            Platform::Unix => if facts.owner != host.user {
                Some(LockError::DirectoryNotOwned)
            } else if policy is Private && !private_dir_mode(facts.mode & 0o777) {
                Some(LockError::DirectoryWritable)
            } else {
                None
            },
            Platform::Windows => if indicates_reparse(facts.attributes) {
                Some(LockError::DirectoryIsReparsePoint)
            } else {
                None
            },
            Platform::Other => None,
        }
    }
}

/// Why an opened lock file is refused.
pub open spec fn file_fault(
    host: HostFacts,
    policy: PathSecurityPolicy,
    facts: EntryFacts,
) -> Option<LockError> {
    if !facts.is_file {
        Some(LockError::NotRegularFile)
    } else {
        match host.platform {
            Platform::Unix => if facts.owner != host.user {
                Some(LockError::FileNotOwned)
            } else if policy is Private && !private_file_mode(facts.mode & 0o777) {
                Some(LockError::FileNotPrivate)
            } else {
                None
            },
            Platform::Windows => if indicates_reparse(facts.attributes) {
                Some(LockError::FileIsReparsePoint)
            } else {
                None
            },
            Platform::Other => None,
        }
    }
}

/// Access-control lists are judged on Windows, under the private policy.
pub open spec fn dacl_matters(host: HostFacts, policy: PathSecurityPolicy) -> bool {
    host.platform is Windows && policy is Private
}

/// The list is protected and has exactly the private entries.
pub open spec fn dacl_is_exact(dacl: DaclFacts) -> bool {
    control_protects(dacl.control) && same_dacl_aces(dacl.sddl@, dacl.canonical@)
}

/// The directory lets group or others in, in any way.
pub open spec fn root_is_open(facts: EntryFacts) -> bool {
    (facts.mode & 0o777) & 0o077 != 0
}

/// Judge the nearest ancestor that exists.
pub fn check_ancestor(platform: Platform, facts: &EntryFacts) -> (checked: Result<(), LockError>)
    ensures
        match checked {
            Ok(()) => ancestor_fault(platform, *facts) is None,
            Err(error) => ancestor_fault(platform, *facts) == Some(error),
        },
{
    if facts.is_symlink {
        return Err(LockError::DirectoryIsSymlink);
    }
    if !facts.is_dir {
        return Err(LockError::ParentNotDirectory);
    }
    if platform == Platform::Windows && windows_attributes_indicate_reparse(facts.attributes) {
        return Err(LockError::DirectoryIsReparsePoint);
    }
    Ok(())
}

/// Judge the immediate parent of a lock file.
pub fn validate_existing_lock_directory(
    host: &HostFacts,
    policy: PathSecurityPolicy,
    facts: &EntryFacts,
) -> (checked: Result<(), LockError>)
    ensures
        match checked {
            Ok(()) => directory_fault(*host, policy, *facts) is None,
            Err(error) => directory_fault(*host, policy, *facts) == Some(error),
        },
        host.platform is Unix && policy is Shared ==> (checked is Ok <==> facts.is_dir && !facts.is_symlink
            && facts.owner == host.user),
{
    if facts.is_symlink {
        return Err(LockError::DirectoryIsSymlink);
    }
    if !facts.is_dir {
        return Err(LockError::ParentNotDirectory);
    }
    match host.platform {
        Platform::Unix => {
            if facts.owner != host.user {
                return Err(LockError::DirectoryNotOwned);
            }
            if policy.is_private() && !unix_private_dir_mode(facts.mode & 0o777) {
                return Err(LockError::DirectoryWritable);
            }
        },
        Platform::Windows => {
            if windows_attributes_indicate_reparse(facts.attributes) {
                return Err(LockError::DirectoryIsReparsePoint);
            }
        },
        Platform::Other => {},
    }
    Ok(())
}

/// Judge a lock file that has been opened.
pub fn validate_opened_lock_file(
    host: &HostFacts,
    policy: PathSecurityPolicy,
    facts: &EntryFacts,
) -> (checked: Result<(), LockError>)
    ensures
        match checked {
            Ok(()) => file_fault(*host, policy, *facts) is None,
            Err(error) => file_fault(*host, policy, *facts) == Some(error),
        },
        host.platform is Unix && policy is Shared ==> (checked is Ok <==> facts.is_file
            && facts.owner == host.user),
{
    if !facts.is_file {
        return Err(LockError::NotRegularFile);
    }
    match host.platform {
        Platform::Unix => {
            if facts.owner != host.user {
                return Err(LockError::FileNotOwned);
            }
            if policy.is_private() && !unix_private_file_mode(facts.mode & 0o777) {
                return Err(LockError::FileNotPrivate);
            }
        },
        Platform::Windows => {
            if windows_attributes_indicate_reparse(facts.attributes) {
                return Err(LockError::FileIsReparsePoint);
            }
        },
        Platform::Other => {},
    }
    Ok(())
}

/// The mode that a lock directory has to be given, where it lets group or
/// others in. Only Unix directories are changed, and only real ones.
pub fn harden_lock_root_permissions(
    platform: Platform,
    parent: &LockPath,
    facts: &EntryFacts,
) -> (mode: Result<Option<u32>, LockError>)
    ensures
        match mode {
            Ok(None) => platform !is Unix || (facts.is_dir && !facts.is_symlink && !root_is_open(
                *facts,
            )),
            Ok(Some(mode)) => {
                &&& platform is Unix
                &&& facts.is_dir
                &&& !facts.is_symlink
                &&& root_is_open(*facts)
                &&& mode == LOCK_DIRECTORY_MODE
            },
            Err(LockError::DirectoryNotReal { path }) => {
                &&& platform is Unix
                &&& !facts.is_dir || facts.is_symlink
                &&& path@ == parent@
            },
            Err(_) => false,
        },
{
    if platform != Platform::Unix {
        return Ok(None);
    }
    if !facts.is_dir || facts.is_symlink {
        return Err(LockError::DirectoryNotReal { path: parent.clone() });
    }
    if (facts.mode & 0o777) & 0o077 != 0 {
        Ok(Some(LOCK_DIRECTORY_MODE))
    } else {
        Ok(None)
    }
}

/// Refuse a path with a `..` component.
pub fn refuse_parent_dir_components(path: &LockPath, platform: Platform) -> (checked: Result<
    (),
    LockError,
>)
    ensures
        match checked {
            Ok(()) => !has_parent_component(platform, path@),
            Err(error) => has_parent_component(platform, path@) && error
                == LockError::ParentDirComponent,
        },
{
    if path.has_parent_dir(platform) {
        return Err(LockError::ParentDirComponent);
    }
    Ok(())
}

/// Refuse a list that is not private to the user.
pub fn require_user_private_dacl(sddl: &str, sid: &str) -> (checked: Result<(), LockError>)
    ensures
        match checked {
            Ok(()) => user_private(sddl@, sid@),
            Err(error) => !user_private(sddl@, sid@) && error == LockError::DaclNotPrivate,
        },
{
    if !sddl_is_user_private(sddl, sid) {
        return Err(LockError::DaclNotPrivate);
    }
    Ok(())
}

/// Refuse a list that is not protected, or that has other entries than the
/// private list of the user.
pub fn require_protected_user_private_dacl(dacl: &DaclFacts) -> (checked: Result<(), LockError>)
    ensures
        match checked {
            Ok(()) => dacl_is_exact(*dacl),
            Err(error) => !dacl_is_exact(*dacl) && error == (LockError::DaclNotProtected {
                descriptor_protected: control_protects(dacl.control),
                exact_private_aces: same_dacl_aces(dacl.sddl@, dacl.canonical@),
            }),
        },
{
    let descriptor_protected = descriptor_is_protected(dacl.control);
    let exact_private_aces = sddl_has_same_dacl_aces(dacl.sddl.as_str(), dacl.canonical.as_str());
    if !descriptor_protected || !exact_private_aces {
        return Err(LockError::DaclNotProtected { descriptor_protected, exact_private_aces });
    }
    Ok(())
}

/// A failure to open means that the final component is a symbolic link.
pub open spec fn is_substitution(host: HostFacts, failure: IoFailure) -> bool {
    host.symlink_error is Some && failure.raw_os_error == host.symlink_error
}

/// The error for a lock file that could not be opened or created.
pub open spec fn open_error(
    host: HostFacts,
    path: Seq<u8>,
    failure: IoFailure,
    error: LockError,
) -> bool {
    if is_substitution(host, failure) {
        error matches LockError::FinalComponentIsSymlink { path: p } && p@ == path
    } else {
        error matches LockError::Io { step, path: p, failure: cause } && step == IoStep::OpenFile
            && p@ == path && cause == failure
    }
}

/// Tell a refused symbolic link from any other failure to open.
pub fn map_substitution_error(failure: IoFailure, path: LockPath, host: &HostFacts) -> (error:
    LockError)
    ensures
        open_error(*host, path@, failure, error),
{
    match (host.symlink_error, failure.raw_os_error) {
        (Some(symlink), Some(code)) => {
            if code == symlink {
                return LockError::FinalComponentIsSymlink { path };
            }
        },
        _ => {},
    }
    LockError::Io { step: IoStep::OpenFile, path, failure }
}

/// The error is that of a failed call.
pub open spec fn call_failed(
    error: LockError,
    step: IoStep,
    path: Seq<u8>,
    failure: IoFailure,
) -> bool {
    error matches LockError::Io { step: s, path: p, failure: cause } && s == step && p@ == path
        && cause == failure
}

/// Under the shared policy on Unix a regular file of the user is accepted
/// whatever its mode is, and so is a real directory of the user; nothing else is.
pub proof fn law_shared_policy_accepts_what_the_user_owns(host: HostFacts, facts: EntryFacts)
    requires
        host.platform is Unix,
    ensures
        file_fault(host, PathSecurityPolicy::Shared, facts) is None <==> facts.is_file
            && facts.owner == host.user,
        directory_fault(host, PathSecurityPolicy::Shared, facts) is None <==> facts.is_dir && !facts.is_symlink
            && facts.owner == host.user,
{
}

/// Under the private policy on Unix a regular file of the user is accepted
/// exactly where the user may read and write it and neither group nor others
/// have any access, and a real directory of the user exactly where neither
/// group nor others may write it.
pub proof fn law_private_policy_accepts_what_only_the_user_can_touch(
    host: HostFacts,
    facts: EntryFacts,
)
    requires
        host.platform is Unix,
    ensures
        file_fault(host, PathSecurityPolicy::Private, facts) is None <==> facts.is_file
            && facts.owner == host.user && facts.mode & 0o677 == 0o600,
        directory_fault(host, PathSecurityPolicy::Private, facts) is None <==> facts.is_dir && !facts.is_symlink
            && facts.owner == host.user && facts.mode & 0o022 == 0,
{
    let mode = facts.mode;
    assert(((mode & 0o777) & 0o077 == 0 && (mode & 0o777) & 0o600 == 0o600) <==> mode & 0o677
        == 0o600) by (bit_vector);
    assert(((mode & 0o777) & 0o022 == 0) <==> mode & 0o022 == 0) by (bit_vector);
}

/// Each refusal on Unix names what is wrong, the kind of the entry before its
/// owner and its owner before its mode.
pub proof fn law_unix_refusals_name_the_reason(
    host: HostFacts,
    policy: PathSecurityPolicy,
    facts: EntryFacts,
)
    requires
        host.platform is Unix,
    ensures
        !facts.is_file ==> file_fault(host, policy, facts) == Some(LockError::NotRegularFile),
        facts.is_file && facts.owner != host.user ==> file_fault(host, policy, facts) == Some(
            LockError::FileNotOwned,
        ),
        facts.is_file && facts.owner == host.user && policy is Private && facts.mode & 0o077 != 0
            ==> file_fault(host, policy, facts) == Some(LockError::FileNotPrivate),
        facts.is_symlink ==> directory_fault(host, policy, facts) == Some(
            LockError::DirectoryIsSymlink,
        ),
        !facts.is_symlink && !facts.is_dir ==> directory_fault(host, policy, facts) == Some(
            LockError::ParentNotDirectory,
        ),
        facts.is_dir && !facts.is_symlink && facts.owner != host.user ==> directory_fault(host, policy, facts)
            == Some(LockError::DirectoryNotOwned),
        facts.is_dir && !facts.is_symlink && facts.owner == host.user && policy is Private && facts.mode & 0o022
            != 0 ==> directory_fault(host, policy, facts) == Some(LockError::DirectoryWritable),
{
    law_private_policy_accepts_what_only_the_user_can_touch(host, facts);
    let mode = facts.mode;
    assert(mode & 0o077 != 0 ==> mode & 0o677 != 0o600) by (bit_vector);
}

/// On Windows an entry is refused for its kind or for being a reparse point,
/// under every policy, and for nothing else that its metadata says.
pub proof fn law_windows_refuses_reparse_points(
    host: HostFacts,
    policy: PathSecurityPolicy,
    facts: EntryFacts,
)
    requires
        host.platform is Windows,
    ensures
        file_fault(host, policy, facts) is None <==> facts.is_file && facts.attributes & 0x400 == 0,
        directory_fault(host, policy, facts) is None <==> facts.is_dir && !facts.is_symlink && facts.attributes
            & 0x400 == 0,
        facts.is_file && facts.attributes & 0x400 != 0 ==> file_fault(host, policy, facts) == Some(
            LockError::FileIsReparsePoint,
        ),
        facts.is_dir && !facts.is_symlink && facts.attributes & 0x400 != 0 ==> directory_fault(
            host,
            policy,
            facts,
        ) == Some(LockError::DirectoryIsReparsePoint),
{
}

/// On other platforms only the kind of an entry counts.
pub proof fn law_other_platforms_look_at_the_kind(
    host: HostFacts,
    policy: PathSecurityPolicy,
    facts: EntryFacts,
)
    requires
        host.platform is Other,
    ensures
        file_fault(host, policy, facts) is None <==> facts.is_file,
        directory_fault(host, policy, facts) is None <==> facts.is_dir && !facts.is_symlink,
{
}

/// An ancestor only has to be a real directory, and on Windows no reparse
/// point: whose it is and what its mode is does not matter.
pub proof fn law_ancestors_have_to_be_real_directories(platform: Platform, facts: EntryFacts)
    ensures
        ancestor_fault(platform, facts) is None <==> facts.is_dir && !facts.is_symlink && (platform is Windows
            ==> facts.attributes & 0x400 == 0),
        facts.is_symlink ==> ancestor_fault(platform, facts) == Some(
            LockError::DirectoryIsSymlink,
        ),
        !facts.is_symlink && !facts.is_dir ==> ancestor_fault(platform, facts) == Some(
            LockError::ParentNotDirectory,
        ),
        facts.is_dir && !facts.is_symlink && platform is Windows && facts.attributes & 0x400 != 0
            ==> ancestor_fault(platform, facts) == Some(LockError::DirectoryIsReparsePoint),
{
}

/// A directory is open exactly where group or others have any access, so that
/// the mode that it is given by hardening is never open again.
pub proof fn law_open_directories_let_others_in(facts: EntryFacts)
    ensures
        root_is_open(facts) <==> facts.mode & 0o077 != 0,
        LOCK_DIRECTORY_MODE == 0o700,
        LOCK_FILE_MODE == 0o600,
{
    let mode = facts.mode;
    assert(((mode & 0o777) & 0o077 != 0) <==> mode & 0o077 != 0) by (bit_vector);
}

/// Lists are judged on Windows under the private policy, and nowhere else.
pub proof fn law_lists_matter_for_private_windows_files(
    host: HostFacts,
    policy: PathSecurityPolicy,
)
    ensures
        host.platform is Windows && policy is Private ==> dacl_matters(host, policy),
        host.platform !is Windows || policy is Shared ==> !dacl_matters(host, policy),
{
}

/// A list is exact only where bit 12 of its descriptor's control bits is set,
/// and with that bit the comparison of the entries decides.
pub proof fn law_exact_lists_are_protected(dacl: DaclFacts)
    ensures
        (dacl.control >> 12) & 1 == 0 ==> !dacl_is_exact(dacl),
        (dacl.control >> 12) & 1 == 1 ==> (dacl_is_exact(dacl) <==> same_dacl_aces(
            dacl.sddl@,
            dacl.canonical@,
        )),
{
    let control = dacl.control;
    assert((control & 0x1000 != 0) <==> (control >> 12) & 1 == 1) by (bit_vector);
    assert((control >> 12) & 1 == 0 || (control >> 12) & 1 == 1) by (bit_vector);
}

/// A failure to open is taken for a symbolic link exactly where it has the
/// host's error number for one; every other failure is passed on as it is.
pub proof fn law_symlinks_are_told_by_their_error_number(
    host: HostFacts,
    path: Seq<u8>,
    failure: IoFailure,
    error: LockError,
    number: i32,
)
    requires
        open_error(host, path, failure, error),
    ensures
        host.symlink_error == Some(number) && failure.raw_os_error == Some(number)
            ==> error is FinalComponentIsSymlink && error->FinalComponentIsSymlink_path@ == path,
        host.symlink_error is None || failure.raw_os_error != host.symlink_error ==> error is Io
            && error->Io_path@ == path && error->Io_failure == failure && error->Io_step
            == IoStep::OpenFile,
{
}

} // verus!
