//! How lock directories and files are created and judged.

use vstd::prelude::*;

verus! {

/// How lock directories and files are created and validated.
///
/// Private is the default. Shared remains opt-in for callers that must place a
/// rendezvous in an already-shared directory; it never follows symlinks or
/// Windows reparse points.
#[derive(Debug, Clone, Copy, PartialEq, Eq, Structural)]
pub enum PathSecurityPolicy {
    /// Owner-only lock directories and files. Foreign ownership, group or other
    /// write on the parent, group or other access on the lock file, and
    /// symlink or reparse substitution are rejected. Existing overly permissive
    /// lock files are rejected rather than changed.
    Private,
    /// Opt-in weaker mode: the current user must still own the immediate parent
    /// and the lock file, but group and other permission bits are allowed.
    /// Final-component symlinks and reparse points remain forbidden.
    Shared,
}

impl Default for PathSecurityPolicy {
    fn default() -> (policy: Self)
        ensures
            policy == PathSecurityPolicy::Private,
    {
        PathSecurityPolicy::Private
    }
}

impl PathSecurityPolicy {
    pub fn is_private(self) -> (private: bool)
        ensures
            private == (self is Private),
    {
        match self {
            PathSecurityPolicy::Private => true,
            PathSecurityPolicy::Shared => false,
        }
    }
}

/// Open flags that are used for the lock file's final component.
#[derive(Debug, Clone, Copy, PartialEq, Eq, Structural)]
pub struct FinalComponentOpenIntent {
    pub no_follow: bool,
    pub create_exclusive_if_absent: bool,
    pub owner_only_create_mode: bool,
}

impl FinalComponentOpenIntent {
    /// Every policy refuses to follow, creates exclusively and owner-only.
    pub fn for_policy(_policy: PathSecurityPolicy) -> (intent: Self)
        ensures
            intent.no_follow,
            intent.create_exclusive_if_absent,
            intent.owner_only_create_mode,
    {
        FinalComponentOpenIntent {
            no_follow: true,
            create_exclusive_if_absent: true,
            owner_only_create_mode: true,
        }
    }

    pub fn refuses_symlink_substitution(self) -> (refuses: bool)
        ensures
            refuses == self.no_follow,
    {
        self.no_follow
    }
}

/// Permission bits of a lock file that only its owner can use, for reading and
/// writing at least.
pub open spec fn private_file_mode(mode: u32) -> bool {
    mode & 0o077 == 0 && mode & 0o600 == 0o600
}

/// Permission bits of a directory that neither group nor others can write.
pub open spec fn private_dir_mode(mode: u32) -> bool {
    mode & 0o022 == 0
}

/// Unix file mode is owner-only (`0600` bits; no group or other).
pub fn unix_private_file_mode(mode: u32) -> (private: bool)
    ensures
        private == private_file_mode(mode),
{
    mode & 0o077 == 0 && mode & 0o600 == 0o600
}

/// Unix directory mode has no group or other write (`0755` and `0700` both pass).
pub fn unix_private_dir_mode(mode: u32) -> (private: bool)
    ensures
        private == private_dir_mode(mode),
{
    mode & 0o022 == 0
}

/// The attribute bit of symbolic links, junctions and other reparse points.
pub const FILE_ATTRIBUTE_REPARSE_POINT: u32 = 0x0400;

/// The attributes are those of a reparse point.
pub open spec fn indicates_reparse(attributes: u32) -> bool {
    attributes & FILE_ATTRIBUTE_REPARSE_POINT != 0
}

pub fn windows_attributes_indicate_reparse(attributes: u32) -> (reparse: bool)
    ensures
        reparse == indicates_reparse(attributes),
{
    attributes & FILE_ATTRIBUTE_REPARSE_POINT != 0
}

/// Control bit of a security descriptor whose list does not inherit.
pub const SE_DACL_PROTECTED: u16 = 0x1000;

/// The control bits mark the list as protected.
pub open spec fn control_protects(control: u16) -> bool {
    control & SE_DACL_PROTECTED != 0
}

/// Whether a descriptor's control bits mark its list as protected.
pub fn descriptor_is_protected(control: u16) -> (protected: bool)
    ensures
        protected == control_protects(control),
{
    control & SE_DACL_PROTECTED != 0
}

/// Group or other access on a lock file, of any kind, makes its mode not private.
pub proof fn law_shared_bits_are_not_private(mode: u32, bit: u32)
    requires
        bit < 6,
        mode & (1u32 << bit) != 0,
    ensures
        !private_file_mode(mode),
{
    assert(mode & 0o077 != 0) by (bit_vector)
        requires
            bit < 6,
            mode & (1u32 << bit) != 0,
    ;
}

/// A mode that is private for a file is private for a directory too.
pub proof fn law_private_file_mode_is_private_dir_mode(mode: u32)
    requires
        private_file_mode(mode),
    ensures
        private_dir_mode(mode),
{
    assert(mode & 0o022 == 0) by (bit_vector)
        requires
            mode & 0o077 == 0,
    ;
}

/// A file mode is private exactly where its owner may read and write and none
/// of the six group and other bits is set; the owner's execute bit and the bits
/// above the permissions do not matter.
pub proof fn law_private_file_mode_bits(mode: u32)
    ensures
        private_file_mode(mode) <==> (mode >> 8) & 1 == 1 && (mode >> 7) & 1 == 1 && (mode >> 5) & 1
            == 0 && (mode >> 4) & 1 == 0 && (mode >> 3) & 1 == 0 && (mode >> 2) & 1 == 0 && (mode
            >> 1) & 1 == 0 && mode & 1 == 0,
{
    assert((mode & 0o077 == 0 && mode & 0o600 == 0o600) <==> (mode >> 8) & 1 == 1 && (mode >> 7) & 1
        == 1 && (mode >> 5) & 1 == 0 && (mode >> 4) & 1 == 0 && (mode >> 3) & 1 == 0 && (mode >> 2)
        & 1 == 0 && (mode >> 1) & 1 == 0 && mode & 1 == 0) by (bit_vector);
}

/// A directory mode is private exactly where neither the group's nor the
/// others' write bit is set.
pub proof fn law_private_dir_mode_bits(mode: u32)
    ensures
        private_dir_mode(mode) <==> (mode >> 4) & 1 == 0 && (mode >> 1) & 1 == 0,
{
    assert((mode & 0o022 == 0) <==> (mode >> 4) & 1 == 0 && (mode >> 1) & 1 == 0) by (bit_vector);
}

/// Attributes are those of a reparse point exactly where bit 10 is set.
pub proof fn law_reparse_points_have_bit_ten(attributes: u32)
    ensures
        indicates_reparse(attributes) <==> (attributes >> 10) & 1 == 1,
{
    assert((attributes & 0x0400 != 0) <==> (attributes >> 10) & 1 == 1) by (bit_vector);
}

/// A list is protected exactly where bit 12 of the control bits is set.
pub proof fn law_protected_lists_have_bit_twelve(control: u16)
    ensures
        control_protects(control) <==> (control >> 12) & 1 == 1,
{
    assert((control & 0x1000 != 0) <==> (control >> 12) & 1 == 1) by (bit_vector);
}

} // verus!
