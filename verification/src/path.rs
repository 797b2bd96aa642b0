//! Lock paths as plain bytes, and the host conventions that apply to them.

use vstd::prelude::*;
use vstd::string::*;

#[allow(unused_imports)]
use crate::text::{find, lemma_find, split, unicode_lowercase, utf8_lossy};
use crate::text::{decode_lossy, lowercase};

verus! {

/// The conventions of the host operating system.
#[derive(Debug, Clone, Copy, PartialEq, Eq, Structural)]
pub enum Platform {
    Unix,
    Windows,
    Other,
}

/// A file-system path in the encoding of the host: any bytes on Unix, encoded
/// wide text on Windows.
///
/// Identities of locks are canonical absolute paths, so equal files have equal
/// bytes.
#[derive(Debug, PartialEq, Eq, Hash)]
pub struct LockPath {
    bytes: Vec<u8>,
}

impl View for LockPath {
    type V = Seq<u8>;

    closed spec fn view(&self) -> Seq<u8> {
        self.bytes@
    }
}

impl Clone for LockPath {
    fn clone(&self) -> (copy: Self)
        ensures
            copy@ == self@,
    {
        LockPath { bytes: vstd::slice::slice_to_vec(self.bytes.as_slice()) }
    }
}

/// Either slash.
pub open spec fn is_slash(byte: u8) -> bool {
    byte == 0x2f || byte == 0x5c
}

/// An ASCII letter.
pub open spec fn is_letter(byte: u8) -> bool {
    0x41 <= byte <= 0x5a || 0x61 <= byte <= 0x7a
}

/// A drive letter and its colon stand at `i`.
pub open spec fn drive_at(path: Seq<u8>, i: int) -> bool {
    i + 2 <= path.len() && is_letter(path[i]) && path[i + 1] == 0x3a
}

/// Where the name that starts at `from` ends: at the next backslash, or at the
/// next slash of either kind where the path is not verbatim.
pub open spec fn name_end(path: Seq<u8>, from: int, verbatim: bool) -> int
    decreases path.len() - from,
{
    if from >= path.len() || path[from] == 0x5c || (!verbatim && path[from] == 0x2f) {
        from
    } else {
        name_end(path, from + 1, verbatim)
    }
}

/// The start of a Windows path that names a drive, a share or a device and is
/// not made of components.
pub struct PathPrefix {
    pub len: int,
    /// Whether only backslashes separate the components that follow.
    pub verbatim: bool,
}

/// A server and a share from `from` on; the server alone where no share follows.
pub open spec fn share_end(path: Seq<u8>, from: int, verbatim: bool) -> int {
    let server = name_end(path, from, verbatim);
    let share = name_end(path, server + 1, verbatim);
    if server < path.len() && share > server + 1 {
        share
    } else {
        server
    }
}

/// The prefix of a Windows path, behind two slashes:
/// a verbatim share (`\\?\UNC\server\share`), drive (`\\?\C:`) or name
/// (`\\?\name`), a device (`\\.\name`), or a share (`\\server\share`).
pub open spec fn slashed_prefix(path: Seq<u8>) -> PathPrefix {
    if path.len() >= 4 && path.take(4) == seq![0x5cu8, 0x5c, 0x3f, 0x5c] {
        PathPrefix {
            len: if path.len() >= 8 && path.subrange(4, 7) == seq![0x55u8, 0x4e, 0x43] && is_slash(
                path[7],
            ) {
                share_end(path, 8, true)
            } else if drive_at(path, 4) && (path.len() == 6 || is_slash(path[6])) {
                6
            } else {
                name_end(path, 4, true)
            },
            verbatim: true,
        }
    } else if path.len() >= 4 && path[2] == 0x2e && is_slash(path[3]) {
        PathPrefix { len: name_end(path, 4, false), verbatim: false }
    } else {
        let server = name_end(path, 2, false);
        PathPrefix {
            len: if server > 2 && share_end(path, 2, false) > server {
                share_end(path, 2, false)
            } else {
                0
            },
            verbatim: false,
        }
    }
}

/// The prefix of a path; only Windows paths have one.
pub open spec fn path_prefix(platform: Platform, path: Seq<u8>) -> PathPrefix {
    if platform is Windows && path.len() >= 2 && is_slash(path[0]) && is_slash(path[1]) {
        slashed_prefix(path)
    } else if platform is Windows && drive_at(path, 0) {
        PathPrefix { len: 2, verbatim: false }
    } else {
        PathPrefix { len: 0, verbatim: false }
    }
}

/// The byte at `i`, behind the prefix, ends a component. On a verbatim Windows
/// path a slash does so only where it is the root.
pub open spec fn separates(platform: Platform, path: Seq<u8>, i: int) -> bool {
    let prefix = path_prefix(platform, path);
    &&& i >= prefix.len
    &&& if platform is Windows {
        path[i] == 0x5c || (path[i] == 0x2f && (!prefix.verbatim || i == prefix.len))
    } else {
        path[i] == 0x2f
    }
}

/// The bytes at `i` and `i + 1`, behind the prefix, are a whole component, and
/// it is `..`.
pub open spec fn parent_component_at(platform: Platform, path: Seq<u8>, i: int) -> bool {
    let start = path_prefix(platform, path).len;
    &&& start <= i
    &&& i + 2 <= path.len()
    &&& path[i] == 0x2e
    &&& path[i + 1] == 0x2e
    &&& (i == start || separates(platform, path, i - 1))
    &&& (i + 2 == path.len() || separates(platform, path, i + 2))
}

/// Some component of the path is `..`.
pub open spec fn has_parent_component(platform: Platform, path: Seq<u8>) -> bool {
    exists|i: int| #[trigger] parent_component_at(platform, path, i)
}

/// A separator stands directly behind the prefix.
pub open spec fn is_rooted(platform: Platform, path: Seq<u8>) -> bool {
    let prefix = path_prefix(platform, path).len;
    prefix < path.len() && separates(platform, path, prefix)
}

/// The path starts, behind nothing or behind a drive, with the component `.`.
pub open spec fn starts_here(platform: Platform, path: Seq<u8>) -> bool {
    let prefix = path_prefix(platform, path).len;
    &&& !is_rooted(platform, path)
    &&& prefix <= 2
    &&& prefix < path.len()
    &&& path[prefix] == 0x2e
    &&& prefix + 1 == path.len() || separates(platform, path, prefix + 1)
}

/// Where the names of a path start: behind its prefix, and behind its root or
/// its leading `.`.
pub open spec fn names_start(platform: Platform, path: Seq<u8>) -> int {
    path_prefix(platform, path).len + if is_rooted(platform, path) || starts_here(platform, path) {
        1int
    } else {
        0int
    }
}

/// Where the last name of `path[..end]` starts, among names from `start` on.
pub open spec fn last_name(platform: Platform, path: Seq<u8>, start: int, end: int) -> int
    decreases end - start,
{
    if end <= start || separates(platform, path, end - 1) {
        end
    } else {
        last_name(platform, path, start, end - 1)
    }
}

/// The piece from `from` to `end` names nothing: it is empty, or a `.` that is
/// not taken verbatim.
pub open spec fn names_nothing(platform: Platform, path: Seq<u8>, from: int, end: int) -> bool {
    from == end || (end == from + 1 && path[from] == 0x2e && !path_prefix(platform, path).verbatim)
}

/// The path without its last name and the separator in front of it.
pub open spec fn without_last_name(
    platform: Platform,
    path: Seq<u8>,
    start: int,
    end: int,
) -> int {
    let from = last_name(platform, path, start, end);
    if from > start {
        from - 1
    } else {
        from
    }
}

/// The end of the path once trailing pieces that name nothing are left off.
pub open spec fn trimmed_end(platform: Platform, path: Seq<u8>, start: int, end: int) -> int
    decreases end - start,
{
    let from = last_name(platform, path, start, end);
    let shorter = without_last_name(platform, path, start, end);
    if end > start && names_nothing(platform, path, from, end) && start <= shorter < end {
        trimmed_end(platform, path, start, shorter)
    } else {
        end
    }
}

/// The path without its final component. A root, a prefix and the empty path
/// have no parent; that of a single name is empty.
pub open spec fn parent_path(platform: Platform, path: Seq<u8>) -> Option<Seq<u8>> {
    let start = names_start(platform, path);
    let end = trimmed_end(platform, path, start, path.len() as int);
    if end > start {
        let before = without_last_name(platform, path, start, end);
        Some(path.take(trimmed_end(platform, path, start, before)))
    } else if path_prefix(platform, path).len == 0 && starts_here(platform, path) {
        Some(Seq::empty())
    } else {
        None
    }
}

/// A parent is a shorter beginning of its path, so every walk up a path ends.
pub proof fn law_parent_is_a_shorter_beginning(platform: Platform, path: Seq<u8>)
    ensures
        parent_path(platform, path) matches Some(parent) ==> parent.len() < path.len()
            && parent.is_prefix_of(path),
{
    let start = names_start(platform, path);
    let end = trimmed_end(platform, path, start, path.len() as int);
    lemma_prefix_fits(platform, path);
    lemma_trimmed_end(platform, path, start, path.len() as int);
    if end > start {
        lemma_last_name(platform, path, start, end);
        let before = without_last_name(platform, path, start, end);
        lemma_trimmed_end(platform, path, start, before);
        lemma_trimmed_name(platform, path, start, path.len() as int);
    }
}

/// The last name starts between `start` and `end`.
proof fn lemma_last_name(platform: Platform, path: Seq<u8>, start: int, end: int)
    requires
        start <= end,
    ensures
        start <= last_name(platform, path, start, end) <= end,
    decreases end - start,
{
    if end > start && !separates(platform, path, end - 1) {
        lemma_last_name(platform, path, start, end - 1);
    }
}

/// Trimming stays between `start` and `end`.
proof fn lemma_trimmed_end(platform: Platform, path: Seq<u8>, start: int, end: int)
    requires
        start <= end,
    ensures
        start <= trimmed_end(platform, path, start, end) <= end,
    decreases end - start,
{
    let shorter = without_last_name(platform, path, start, end);
    if start <= shorter < end {
        lemma_trimmed_end(platform, path, start, shorter);
    }
}

/// What is left after trimming ends in a name.
proof fn lemma_trimmed_name(platform: Platform, path: Seq<u8>, start: int, end: int)
    requires
        start <= end,
        trimmed_end(platform, path, start, end) > start,
    ensures
        ({
            let trimmed = trimmed_end(platform, path, start, end);
            last_name(platform, path, start, trimmed) < trimmed
        }),
    decreases end - start,
{
    lemma_last_name(platform, path, start, end);
    let shorter = without_last_name(platform, path, start, end);
    let from = last_name(platform, path, start, end);
    if end > start && names_nothing(platform, path, from, end) && start <= shorter < end {
        lemma_trimmed_name(platform, path, start, shorter);
    }
}

/// A prefix is no longer than its path.
proof fn lemma_prefix_fits(platform: Platform, path: Seq<u8>)
    ensures
        0 <= path_prefix(platform, path).len <= path.len(),
{
    if path.len() >= 2 {
        lemma_name_end(path, 2, false);
        lemma_share_end(path, 2, false);
    }
    if path.len() >= 4 {
        lemma_name_end(path, 4, true);
        lemma_name_end(path, 4, false);
    }
    if path.len() >= 8 {
        lemma_share_end(path, 8, true);
    }
}

proof fn lemma_name_end(path: Seq<u8>, from: int, verbatim: bool)
    requires
        from <= path.len(),
    ensures
        from <= name_end(path, from, verbatim) <= path.len(),
    decreases path.len() - from,
{
    if from < path.len() {
        lemma_name_end(path, from + 1, verbatim);
    }
}

proof fn lemma_share_end(path: Seq<u8>, from: int, verbatim: bool)
    requires
        from <= path.len(),
    ensures
        from <= share_end(path, from, verbatim) <= path.len(),
{
    lemma_name_end(path, from, verbatim);
    let server = name_end(path, from, verbatim);
    if server < path.len() {
        lemma_name_end(path, server + 1, verbatim);
    }
}

/// The three bytes from `i` on encode half of a surrogate pair, which wide text
/// may hold and UTF-8 may not.
pub open spec fn surrogate_at(path: Seq<u8>, i: int) -> bool {
    &&& 0 <= i
    &&& i + 2 < path.len()
    &&& path[i] == 0xed
    &&& 0xa0 <= path[i + 1] <= 0xbf
    &&& 0x80 <= path[i + 2] <= 0xbf
}

/// The bytes with each unpaired surrogate replaced by the encoding of U+FFFD.
pub open spec fn surrogates_replaced(path: Seq<u8>) -> Seq<u8> {
    Seq::new(
        path.len(),
        |i: int|
            if surrogate_at(path, i) {
                0xefu8
            } else if surrogate_at(path, i - 1) {
                0xbfu8
            } else if surrogate_at(path, i - 2) {
                0xbdu8
            } else {
                path[i]
            },
    )
}

/// The path as text: what cannot be decoded is replaced by U+FFFD, an unpaired
/// surrogate of a Windows path by a single one.
pub open spec fn shown(platform: Platform, path: Seq<u8>) -> Seq<char> {
    if platform is Windows {
        utf8_lossy(surrogates_replaced(path))
    } else {
        utf8_lossy(path)
    }
}

/// The text by which paths are ordered: lossily decoded, and without regard to
/// case on Windows.
pub open spec fn sort_key(platform: Platform, path: Seq<u8>) -> Seq<char> {
    if platform is Windows {
        unicode_lowercase(shown(platform, path))
    } else {
        shown(platform, path)
    }
}

impl LockPath {
    /// A path from its encoded bytes.
    pub fn from_bytes(bytes: Vec<u8>) -> (path: LockPath)
        ensures
            path@ == bytes@,
    {
        LockPath { bytes }
    }

    /// A path from text, encoded as UTF-8.
    pub fn from_text(text: &str) -> (path: LockPath)
        ensures
            path@ == text.spec_bytes(),
    {
        LockPath { bytes: text.as_bytes_vec() }
    }

    /// The encoded bytes.
    pub fn as_bytes(&self) -> (bytes: &[u8])
        ensures
            bytes@ == self@,
    {
        self.bytes.as_slice()
    }

    /// Whether the path has no bytes at all.
    pub fn is_empty(&self) -> (empty: bool)
        ensures
            empty == (self@.len() == 0),
    {
        self.bytes.len() == 0
    }

    /// Whether both paths have the same bytes.
    pub fn same_as(&self, other: &LockPath) -> (same: bool)
        ensures
            same == (self@ == other@),
    {
        if self.bytes.len() != other.bytes.len() {
            return false;
        }
        let mut i: usize = 0;
        while i < self.bytes.len()
            invariant
                i <= self.bytes.len(),
                self.bytes.len() == other.bytes.len(),
                forall|k: int| 0 <= k < i ==> self.bytes@[k] == other.bytes@[k],
            decreases self.bytes.len() - i,
        {
            if self.bytes[i] != other.bytes[i] {
                return false;
            }
            i += 1;
        }
        assert(self.bytes@ =~= other.bytes@);
        true
    }

    /// The path as text, for messages.
    pub fn display(&self, platform: Platform) -> (text: String)
        ensures
            text@ == shown(platform, self@),
    {
        if platform != Platform::Windows {
            return decode_lossy(self.bytes.as_slice());
        }
        let mut bytes: Vec<u8> = Vec::new();
        let mut i: usize = 0;
        while i < self.bytes.len()
            invariant
                i <= self.bytes.len(),
                bytes@ == surrogates_replaced(self@).take(i as int),
            decreases self.bytes.len() - i,
        {
            let byte: u8 = if self.has_surrogate_at(i) {
                0xef
            } else if i >= 1 && self.has_surrogate_at(i - 1) {
                0xbf
            } else if i >= 2 && self.has_surrogate_at(i - 2) {
                0xbd
            } else {
                self.bytes[i]
            };
            bytes.push(byte);
            i += 1;
            assert(bytes@ =~= surrogates_replaced(self@).take(i as int));
        }
        assert(bytes@ =~= surrogates_replaced(self@));
        decode_lossy(bytes.as_slice())
    }

    fn has_surrogate_at(&self, i: usize) -> (found: bool)
        ensures
            found == surrogate_at(self@, i as int),
    {
        let total: usize = self.bytes.len();
        if i >= total || total - i < 3 {
            return false;
        }
        self.bytes[i] == 0xed && 0xa0 <= self.bytes[i + 1] && self.bytes[i + 1] <= 0xbf && 0x80
            <= self.bytes[i + 2] && self.bytes[i + 2] <= 0xbf
    }

    fn slash_at(&self, i: usize) -> (slash: bool)
        requires
            i < self@.len(),
        ensures
            slash == is_slash(self@[i as int]),
    {
        self.bytes[i] == 0x2f || self.bytes[i] == 0x5c
    }

    fn has_drive_at(&self, i: usize) -> (found: bool)
        ensures
            found == drive_at(self@, i as int),
    {
        let total: usize = self.bytes.len();
        if i >= total || total - i < 2 {
            return false;
        }
        let drive: u8 = self.bytes[i];
        ((0x41 <= drive && drive <= 0x5a) || (0x61 <= drive && drive <= 0x7a)) && self.bytes[i + 1]
            == 0x3a
    }

    fn find_name_end(&self, from: usize, verbatim: bool) -> (end: usize)
        requires
            from <= self@.len(),
        ensures
            end == name_end(self@, from as int, verbatim),
            from <= end <= self@.len(),
    {
        let mut end: usize = from;
        while end < self.bytes.len() && self.bytes[end] != 0x5c && (verbatim || self.bytes[end]
            != 0x2f)
            invariant
                from <= end <= self@.len(),
                self@ == self.bytes@,
                name_end(self@, from as int, verbatim) == name_end(self@, end as int, verbatim),
            decreases self.bytes.len() - end,
        {
            end += 1;
        }
        end
    }

    fn find_share_end(&self, from: usize, verbatim: bool) -> (end: usize)
        requires
            from <= self@.len(),
        ensures
            end == share_end(self@, from as int, verbatim),
            name_end(self@, from as int, verbatim) <= end <= self@.len(),
    {
        let server: usize = self.find_name_end(from, verbatim);
        if server == self.bytes.len() {
            return server;
        }
        let share: usize = self.find_name_end(server + 1, verbatim);
        if share > server + 1 {
            share
        } else {
            server
        }
    }

    /// Length of the prefix, and whether it is verbatim.
    fn prefix(&self, platform: Platform) -> (prefix: (usize, bool))
        ensures
            prefix.0 == path_prefix(platform, self@).len,
            prefix.1 == path_prefix(platform, self@).verbatim,
            prefix.0 <= self@.len(),
    {
        let total: usize = self.bytes.len();
        if platform != Platform::Windows {
            return (0, false);
        }
        if total < 2 || !self.slash_at(0) || !self.slash_at(1) {
            return if self.has_drive_at(0) {
                (2, false)
            } else {
                (0, false)
            };
        }
        let verbatim = total >= 4 && self.bytes[0] == 0x5c && self.bytes[1] == 0x5c
            && self.bytes[2] == 0x3f && self.bytes[3] == 0x5c;
        proof {
            let start = seq![0x5cu8, 0x5c, 0x3f, 0x5c];
            if verbatim {
                assert(self@.take(4) =~= start);
            } else if total >= 4 && self@.take(4) == start {
                assert(self@.take(4)[0] == start[0] && self@.take(4)[1] == start[1]);
                assert(self@.take(4)[2] == start[2] && self@.take(4)[3] == start[3]);
            }
        }
        if verbatim {
            let unc = total >= 8 && self.bytes[4] == 0x55 && self.bytes[5] == 0x4e && self.bytes[6]
                == 0x43;
            proof {
                let name = seq![0x55u8, 0x4e, 0x43];
                if unc {
                    assert(self@.subrange(4, 7) =~= name);
                } else if total >= 8 && self@.subrange(4, 7) == name {
                    assert(self@.subrange(4, 7)[0] == name[0]);
                    assert(self@.subrange(4, 7)[1] == name[1]);
                    assert(self@.subrange(4, 7)[2] == name[2]);
                }
            }
            if unc && self.slash_at(7) {
                return (self.find_share_end(8, true), true);
            }
            if self.has_drive_at(4) && (total == 6 || self.slash_at(6)) {
                return (6, true);
            }
            return (self.find_name_end(4, true), true);
        }
        if total >= 4 && self.bytes[2] == 0x2e && self.slash_at(3) {
            return (self.find_name_end(4, false), false);
        }
        let server: usize = self.find_name_end(2, false);
        let share: usize = self.find_share_end(2, false);
        if server > 2 && share > server {
            (share, false)
        } else {
            (0, false)
        }
    }

    /// Whether some component of the path is `..`.
    pub fn has_parent_dir(&self, platform: Platform) -> (found: bool)
        ensures
            found == has_parent_component(platform, self@),
    {
        let total: usize = self.bytes.len();
        let (start, verbatim) = self.prefix(platform);
        let mut i: usize = start;
        while i < total && total - i >= 2
            invariant
                total == self.bytes.len(),
                start <= i <= total,
                start == path_prefix(platform, self@).len,
                verbatim == path_prefix(platform, self@).verbatim,
                forall|k: int| start <= k < i ==> !parent_component_at(platform, self@, k),
            decreases total - i,
        {
            let starts = i == start || self.separator_at(platform, start, verbatim, i - 1);
            let ends = total - i == 2 || self.separator_at(platform, start, verbatim, i + 2);
            if starts && ends && self.bytes[i] == 0x2e && self.bytes[i + 1] == 0x2e {
                assert(parent_component_at(platform, self@, i as int));
                return true;
            }
            i += 1;
        }
        false
    }

    /// The path without its final component, where it has one.
    pub fn parent(&self, platform: Platform) -> (parent: Option<LockPath>)
        ensures
            match parent {
                Some(directory) => parent_path(platform, self@) == Some(directory@),
                None => parent_path(platform, self@) is None,
            },
    {
        let total: usize = self.bytes.len();
        let (prefix, verbatim) = self.prefix(platform);
        let rooted = prefix < total && self.separator_at(platform, prefix, verbatim, prefix);
        let here = !rooted && prefix <= 2 && prefix < total && self.bytes[prefix] == 0x2e && (prefix
            + 1 == total || self.separator_at(platform, prefix, verbatim, prefix + 1));
        let start: usize = if rooted || here {
            prefix + 1
        } else {
            prefix
        };
        let end: usize = self.trim(platform, prefix, verbatim, start, total);
        if end > start {
            let before: usize = self.drop_last_name(platform, prefix, verbatim, start, end);
            let kept: usize = self.trim(platform, prefix, verbatim, start, before);
            let bytes = vstd::slice::slice_to_vec(
                vstd::slice::slice_subrange(self.bytes.as_slice(), 0, kept),
            );
            assert(bytes@ =~= self@.take(kept as int));
            return Some(LockPath { bytes });
        }
        if prefix == 0 && here {
            let bytes: Vec<u8> = Vec::new();
            assert(bytes@ =~= Seq::<u8>::empty());
            return Some(LockPath { bytes });
        }
        None
    }

    fn find_last_name(
        &self,
        platform: Platform,
        prefix: usize,
        verbatim: bool,
        start: usize,
        end: usize,
    ) -> (from: usize)
        requires
            prefix == path_prefix(platform, self@).len,
            verbatim == path_prefix(platform, self@).verbatim,
            start <= end <= self@.len(),
        ensures
            from == last_name(platform, self@, start as int, end as int),
            start <= from <= end,
    {
        let mut from: usize = end;
        while from > start && !self.separator_at(platform, prefix, verbatim, from - 1)
            invariant
                prefix == path_prefix(platform, self@).len,
                verbatim == path_prefix(platform, self@).verbatim,
                start <= from <= end <= self@.len(),
                last_name(platform, self@, start as int, end as int) == last_name(
                    platform,
                    self@,
                    start as int,
                    from as int,
                ),
            decreases from,
        {
            from -= 1;
        }
        from
    }

    fn drop_last_name(
        &self,
        platform: Platform,
        prefix: usize,
        verbatim: bool,
        start: usize,
        end: usize,
    ) -> (shorter: usize)
        requires
            prefix == path_prefix(platform, self@).len,
            verbatim == path_prefix(platform, self@).verbatim,
            start <= end <= self@.len(),
        ensures
            shorter == without_last_name(platform, self@, start as int, end as int),
            start <= shorter <= end,
    {
        let from: usize = self.find_last_name(platform, prefix, verbatim, start, end);
        if from > start {
            from - 1
        } else {
            from
        }
    }

    fn trim(
        &self,
        platform: Platform,
        prefix: usize,
        verbatim: bool,
        start: usize,
        end: usize,
    ) -> (trimmed: usize)
        requires
            prefix == path_prefix(platform, self@).len,
            verbatim == path_prefix(platform, self@).verbatim,
            start <= end <= self@.len(),
        ensures
            trimmed == trimmed_end(platform, self@, start as int, end as int),
            start <= trimmed <= end,
    {
        let mut trimmed: usize = end;
        while trimmed > start
            invariant
                prefix == path_prefix(platform, self@).len,
                verbatim == path_prefix(platform, self@).verbatim,
                start <= trimmed <= end <= self@.len(),
                trimmed_end(platform, self@, start as int, end as int) == trimmed_end(
                    platform,
                    self@,
                    start as int,
                    trimmed as int,
                ),
            decreases trimmed,
        {
            let from: usize = self.find_last_name(platform, prefix, verbatim, start, trimmed);
            let nothing = from == trimmed || (trimmed - from == 1 && self.bytes[from] == 0x2e
                && !verbatim);
            let shorter: usize = if from > start {
                from - 1
            } else {
                from
            };
            if !nothing {
                return trimmed;
            }
            trimmed = shorter;
        }
        trimmed
    }

    fn separator_at(
        &self,
        platform: Platform,
        start: usize,
        verbatim: bool,
        i: usize,
    ) -> (separator: bool)
        requires
            i < self@.len(),
            start == path_prefix(platform, self@).len,
            verbatim == path_prefix(platform, self@).verbatim,
        ensures
            separator == separates(platform, self@, i as int),
    {
        if i < start {
            return false;
        }
        let byte: u8 = self.bytes[i];
        if platform == Platform::Windows {
            byte == 0x5c || (byte == 0x2f && (!verbatim || i == start))
        } else {
            byte == 0x2f
        }
    }
}

/// The text by which a path is ordered among others.
pub fn path_sort_key(path: &LockPath, platform: Platform) -> (key: String)
    ensures
        key@ == sort_key(platform, path@),
{
    let key = path.display(platform);
    if platform == Platform::Windows {
        lowercase(key.as_str())
    } else {
        key
    }
}

/// Paths are shown and ordered by their decoded text; only on Windows the case
/// of letters does not count.
pub proof fn law_sort_keys_are_decoded_text(platform: Platform, path: Seq<u8>)
    ensures
        platform !is Windows ==> shown(platform, path) == utf8_lossy(path) && sort_key(
            platform,
            path,
        ) == utf8_lossy(path),
        platform is Windows ==> sort_key(platform, path) == unicode_lowercase(
            shown(platform, path),
        ),
        platform is Windows && !path.contains(0xed) ==> shown(platform, path) == utf8_lossy(path),
{
    if !path.contains(0xed) {
        assert forall|i: int| !surrogate_at(path, i) by {
            if surrogate_at(path, i) {
                assert(path.contains(path[i]));
            }
        }
        assert(surrogates_replaced(path) =~= path);
    }
}

/// An unpaired surrogate is replaced by U+FFFD where it stands, whatever stands
/// around it.
pub proof fn law_surrogates_are_replaced_in_place(a: Seq<u8>, x: u8, y: u8, b: Seq<u8>)
    requires
        0xa0 <= x <= 0xbf,
        0x80 <= y <= 0xbf,
    ensures
        surrogates_replaced(a + seq![0xedu8, x, y] + b) == surrogates_replaced(a) + seq![
            0xefu8,
            0xbfu8,
            0xbdu8,
        ] + surrogates_replaced(b),
{
    let whole = a + seq![0xedu8, x, y] + b;
    let n = a.len() as int;
    assert(surrogate_at(whole, n));
    assert forall|i: int| i < n implies surrogate_at(whole, i) == surrogate_at(a, i) by {
        if 0 <= i {
            assert(whole[i] == a[i]);
            if i + 1 < n {
                assert(whole[i + 1] == a[i + 1]);
            }
            if i + 2 < n {
                assert(whole[i + 2] == a[i + 2]);
            }
        }
    }
    assert(!surrogate_at(whole, n + 1) && !surrogate_at(whole, n + 2));
    assert forall|i: int| i >= 0 implies surrogate_at(whole, n + 3 + i) == #[trigger] surrogate_at(
        b,
        i,
    ) by {
        if i + 2 < b.len() {
            assert(whole[n + 3 + i] == b[i]);
            assert(whole[n + 4 + i] == b[i + 1]);
            assert(whole[n + 5 + i] == b[i + 2]);
        }
    }
    let left = surrogates_replaced(whole);
    let right = surrogates_replaced(a) + seq![0xefu8, 0xbfu8, 0xbdu8] + surrogates_replaced(b);
    assert forall|k: int| 0 <= k < left.len() implies left[k] == right[k] by {
        if k < n {
            assert(surrogate_at(whole, k) == surrogate_at(a, k));
            assert(surrogate_at(whole, k - 1) == surrogate_at(a, k - 1));
            assert(surrogate_at(whole, k - 2) == surrogate_at(a, k - 2));
        } else if k >= n + 3 {
            let j = k - n - 3;
            assert(surrogate_at(whole, n + 3 + j) == surrogate_at(b, j));
            if j >= 1 {
                assert(surrogate_at(whole, n + 3 + (j - 1)) == surrogate_at(b, j - 1));
            }
            if j >= 2 {
                assert(surrogate_at(whole, n + 3 + (j - 2)) == surrogate_at(b, j - 2));
            }
        }
    }
    assert(left =~= right);
}

/// On Unix a path has a parent component exactly where one of the pieces
/// between its slashes is `..`.
pub proof fn law_unix_parent_components_are_pieces(path: Seq<u8>)
    ensures
        has_parent_component(Platform::Unix, path) <==> exists|i: int|
            0 <= i < split(path, 0x2fu8).len() && #[trigger] split(path, 0x2fu8)[i] == seq![
                0x2eu8,
                0x2eu8,
            ],
    decreases path.len(),
{
    let slash = 0x2fu8;
    let dots = seq![0x2eu8, 0x2eu8];
    let at = find(path, slash);
    lemma_find(path, slash);
    let pieces = split(path, slash);
    if at >= path.len() {
        if has_parent_component(Platform::Unix, path) {
            let i = choose|i: int| #[trigger] parent_component_at(Platform::Unix, path, i);
            assert(path =~= dots);
            assert(pieces[0] == dots);
        }
        if exists|i: int| 0 <= i < pieces.len() && #[trigger] pieces[i] == dots {
            assert(path == dots);
            assert(parent_component_at(Platform::Unix, path, 0));
        }
    } else {
        let rest = path.skip(at + 1);
        law_unix_parent_components_are_pieces(rest);
        let tail = split(rest, slash);
        assert(pieces[0] == path.take(at));
        assert(pieces.drop_first() =~= tail);
        if has_parent_component(Platform::Unix, path) {
            let i = choose|i: int| #[trigger] parent_component_at(Platform::Unix, path, i);
            if i < at {
                assert(path.take(at) =~= dots);
                assert(pieces[0] == dots);
            } else {
                let j = i - at - 1;
                assert(parent_component_at(Platform::Unix, rest, j));
                let k = choose|k: int| 0 <= k < tail.len() && #[trigger] tail[k] == dots;
                assert(pieces[k + 1] == tail[k]);
            }
        }
        if exists|i: int| 0 <= i < pieces.len() && #[trigger] pieces[i] == dots {
            let k = choose|k: int| 0 <= k < pieces.len() && #[trigger] pieces[k] == dots;
            if k == 0 {
                assert(path.take(at)[0] == dots[0] && path.take(at)[1] == dots[1]);
                assert(parent_component_at(Platform::Unix, path, 0));
            } else {
                assert(tail[k - 1] == pieces[k]);
                let j = choose|j: int| #[trigger] parent_component_at(Platform::Unix, rest, j);
                assert(parent_component_at(Platform::Unix, path, at + 1 + j));
            }
        }
    }
}

/// The parent of a name in a directory is that directory.
pub proof fn law_unix_parent_of_a_name_is_its_directory(directory: Seq<u8>, name: Seq<u8>)
    requires
        directory.len() > 0,
        directory.last() != 0x2f,
        directory.last() != 0x2e || (directory.len() > 1 && directory[directory.len() - 2] != 0x2f),
        name.len() > 0,
        !name.contains(0x2f),
        name != seq![0x2eu8],
    ensures
        parent_path(Platform::Unix, directory + seq![0x2fu8] + name) == Some(directory),
{
    let path = directory + seq![0x2fu8] + name;
    let total = path.len() as int;
    let dir = directory.len() as int;
    let start = names_start(Platform::Unix, path);
    assert forall|i: int| dir < i < total implies path[i] != 0x2f by {
        assert(path[i] == name[i - dir - 1]);
        assert(name.contains(name[i - dir - 1]));
    }
    assert(path[0] == directory[0]);
    assert(path[dir - 1] == directory.last());
    if dir > 1 {
        assert(path[dir - 2] == directory[dir - 2]);
        assert(path[1] == directory[1]);
    }
    assert(start < dir);
    lemma_last_name_is(path, start, total, dir + 1);
    assert(path[dir + 1] == name[0]);
    if total == dir + 2 {
        assert(name =~= seq![name[0]]);
    }
    assert(trimmed_end(Platform::Unix, path, start, total) == total);
    assert(without_last_name(Platform::Unix, path, start, total) == dir);
    lemma_last_name(Platform::Unix, path, start, dir);
    let from = last_name(Platform::Unix, path, start, dir);
    assert(!separates(Platform::Unix, path, dir - 1));
    lemma_last_name(Platform::Unix, path, start, dir - 1);
    lemma_before_last_name(path, start, dir);
    assert(!names_nothing(Platform::Unix, path, from, dir));
    assert(path.take(dir) =~= directory);
}

/// The parent of a single name is empty, and that of a name at the root is the
/// root.
pub proof fn law_unix_parent_of_a_single_name(name: Seq<u8>)
    requires
        name.len() > 0,
        !name.contains(0x2f),
    ensures
        parent_path(Platform::Unix, name) == Some(Seq::<u8>::empty()),
        name != seq![0x2eu8] ==> parent_path(Platform::Unix, seq![0x2fu8] + name) == Some(
            seq![0x2fu8],
        ),
        parent_path(Platform::Unix, Seq::empty()) is None,
        parent_path(Platform::Unix, seq![0x2fu8]) is None,
{
    let total = name.len() as int;
    assert forall|i: int| 0 <= i < total implies name[i] != 0x2f by {
        assert(name.contains(name[i]));
    }
    let start = names_start(Platform::Unix, name);
    if !starts_here(Platform::Unix, name) {
        lemma_last_name_is(name, 0, total, 0);
        if total == 1 {
            assert(name =~= seq![name[0]]);
        }
        assert(name.take(0) =~= Seq::<u8>::empty());
        reveal_with_fuel(trimmed_end, 2);
    }
    let path = seq![0x2fu8] + name;
    if name != seq![0x2eu8] {
        assert forall|i: int| 1 <= i < total + 1 implies path[i] != 0x2f by {
            assert(path[i] == name[i - 1]);
        }
        assert(path[0] == 0x2f);
        lemma_last_name_is(path, 1, total + 1, 1);
        if total == 1 {
            assert(name =~= seq![name[0]]);
            assert(path[1] == name[0]);
        }
        assert(path.take(1) =~= seq![0x2fu8]);
        reveal_with_fuel(trimmed_end, 2);
    }
    reveal_with_fuel(trimmed_end, 2);
}

/// The last name starts at `from`, where a separator or the start stands before
/// it and none stands in it.
proof fn lemma_last_name_is(path: Seq<u8>, start: int, end: int, from: int)
    requires
        0 <= start <= from <= end <= path.len(),
        forall|i: int| from <= i < end ==> path[i] != 0x2f,
        from == start || path[from - 1] == 0x2f,
    ensures
        last_name(Platform::Unix, path, start, end) == from,
    decreases end - from,
{
    if end > from {
        lemma_last_name_is(path, start, end - 1, from);
    }
}

/// In front of the last name stands a separator, or the names start there.
proof fn lemma_before_last_name(path: Seq<u8>, start: int, end: int)
    requires
        0 <= start <= end <= path.len(),
    ensures
        ({
            let from = last_name(Platform::Unix, path, start, end);
            from > start ==> path[from - 1] == 0x2f
        }),
    decreases end - start,
{
    if end > start && !separates(Platform::Unix, path, end - 1) {
        lemma_before_last_name(path, start, end - 1);
    }
}

/// A slash at the end of a path does not change its parent.
pub proof fn law_unix_parents_ignore_a_trailing_slash(path: Seq<u8>)
    requires
        path.len() > 0,
    ensures
        parent_path(Platform::Unix, path.push(0x2f)) == parent_path(Platform::Unix, path),
{
    let longer = path.push(0x2f);
    let total = path.len() as int;
    let start = names_start(Platform::Unix, path);
    assert(names_start(Platform::Unix, longer) == start);
    assert(last_name(Platform::Unix, longer, start, total + 1) == total + 1);
    lemma_same_names(path, longer, start, total);
    assert(trimmed_end(Platform::Unix, longer, start, total + 1) == trimmed_end(
        Platform::Unix,
        longer,
        start,
        total,
    ));
    lemma_trimmed_end(Platform::Unix, path, start, total);
    let end = trimmed_end(Platform::Unix, path, start, total);
    lemma_same_names(path, longer, start, end);
    if end > start {
        let before = without_last_name(Platform::Unix, path, start, end);
        lemma_last_name(Platform::Unix, path, start, end);
        lemma_same_names(path, longer, start, before);
        lemma_trimmed_end(Platform::Unix, path, start, before);
        let kept = trimmed_end(Platform::Unix, path, start, before);
        assert(path.take(kept) =~= longer.take(kept));
    }
}

/// What comes behind does not change the names in front.
proof fn lemma_same_names(path: Seq<u8>, longer: Seq<u8>, start: int, end: int)
    requires
        0 <= start,
        start <= end <= path.len(),
        path.len() <= longer.len(),
        forall|i: int| 0 <= i < path.len() ==> path[i] == longer[i],
    ensures
        last_name(Platform::Unix, path, start, end) == last_name(
            Platform::Unix,
            longer,
            start,
            end,
        ),
        trimmed_end(Platform::Unix, path, start, end) == trimmed_end(
            Platform::Unix,
            longer,
            start,
            end,
        ),
    decreases end - start,
{
    if end > start {
        lemma_same_names(path, longer, start, end - 1);
        lemma_last_name(Platform::Unix, path, start, end);
        let from = last_name(Platform::Unix, path, start, end);
        let shorter = without_last_name(Platform::Unix, path, start, end);
        if start <= shorter < end {
            lemma_same_names(path, longer, start, shorter);
        }
        if from < path.len() {
            assert(path[from] == longer[from]);
        }
    }
}

/// A `.` at the end of a path does not change its parent either.
pub proof fn law_unix_parents_ignore_a_trailing_dot(path: Seq<u8>)
    requires
        path.len() > 0,
    ensures
        parent_path(Platform::Unix, path + seq![0x2fu8, 0x2eu8]) == parent_path(
            Platform::Unix,
            path,
        ),
{
    let slashed = path.push(0x2f);
    let longer = path + seq![0x2fu8, 0x2eu8];
    let total = path.len() as int;
    let start = names_start(Platform::Unix, path);
    law_unix_parents_ignore_a_trailing_slash(path);
    assert(names_start(Platform::Unix, longer) == start);
    assert(names_start(Platform::Unix, slashed) == start);
    assert forall|i: int| 0 <= i < slashed.len() implies slashed[i] == longer[i] by {}
    lemma_last_name_is(longer, start, total + 2, total + 1);
    lemma_same_names(slashed, longer, start, total);
    assert(trimmed_end(Platform::Unix, longer, start, total + 2) == trimmed_end(
        Platform::Unix,
        longer,
        start,
        total,
    ));
    assert(last_name(Platform::Unix, slashed, start, total + 1) == total + 1);
    assert(trimmed_end(Platform::Unix, slashed, start, total + 1) == trimmed_end(
        Platform::Unix,
        slashed,
        start,
        total,
    ));
    lemma_trimmed_end(Platform::Unix, slashed, start, total);
    let end = trimmed_end(Platform::Unix, slashed, start, total);
    if end > start {
        lemma_same_names(slashed, longer, start, end);
        lemma_last_name(Platform::Unix, slashed, start, end);
        let before = without_last_name(Platform::Unix, slashed, start, end);
        lemma_same_names(slashed, longer, start, before);
        lemma_trimmed_end(Platform::Unix, slashed, start, before);
        let kept = trimmed_end(Platform::Unix, slashed, start, before);
        assert(slashed.take(kept) =~= longer.take(kept));
    }
}

/// Where two paths separate at the same places and have their dots there too,
/// their names stand at the same places.
proof fn lemma_names_agree(
    p: Platform,
    a: Seq<u8>,
    q: Platform,
    b: Seq<u8>,
    start: int,
    end: int,
)
    requires
        0 <= start <= end <= a.len(),
        a.len() == b.len(),
        forall|i: int| 0 <= i < a.len() ==> separates(p, a, i) == separates(q, b, i),
        forall|i: int| 0 <= i < a.len() ==> (a[i] == 0x2e <==> b[i] == 0x2e),
        path_prefix(p, a).verbatim == path_prefix(q, b).verbatim,
    ensures
        last_name(p, a, start, end) == last_name(q, b, start, end),
        trimmed_end(p, a, start, end) == trimmed_end(q, b, start, end),
    decreases end - start,
{
    if end > start {
        assert(separates(p, a, end - 1) == separates(q, b, end - 1));
        lemma_names_agree(p, a, q, b, start, end - 1);
        lemma_last_name(p, a, start, end);
        let from = last_name(p, a, start, end);
        let shorter = without_last_name(p, a, start, end);
        if start <= shorter < end {
            lemma_names_agree(p, a, q, b, start, shorter);
        }
        if from < a.len() {
            assert(a[from] == 0x2e <==> b[from] == 0x2e);
        }
    }
}

/// Paths that separate alike have their parents in the same place.
proof fn lemma_parents_agree(p: Platform, a: Seq<u8>, q: Platform, b: Seq<u8>)
    requires
        a.len() == b.len(),
        path_prefix(p, a).len == 0,
        path_prefix(q, b).len == 0,
        path_prefix(p, a).verbatim == path_prefix(q, b).verbatim,
        forall|i: int| 0 <= i < a.len() ==> separates(p, a, i) == separates(q, b, i),
        forall|i: int| 0 <= i < a.len() ==> (a[i] == 0x2e <==> b[i] == 0x2e),
    ensures
        match (parent_path(p, a), parent_path(q, b)) {
            (Some(x), Some(y)) => x.len() == y.len() && x == a.take(x.len() as int) && y == b.take(
                y.len() as int,
            ),
            (None, None) => true,
            _ => false,
        },
        has_parent_component(p, a) == has_parent_component(q, b),
{
    let total = a.len() as int;
    let start = names_start(p, a);
    assert(names_start(q, b) == start) by {
        if total > 0 {
            assert(separates(p, a, 0) == separates(q, b, 0));
            assert(a[0] == 0x2e <==> b[0] == 0x2e);
        }
        if total > 1 {
            assert(separates(p, a, 1) == separates(q, b, 1));
        }
    }
    lemma_names_agree(p, a, q, b, start, total);
    lemma_trimmed_end(p, a, start, total);
    let end = trimmed_end(p, a, start, total);
    if end > start {
        lemma_names_agree(p, a, q, b, start, end);
        lemma_last_name(p, a, start, end);
        let before = without_last_name(p, a, start, end);
        lemma_names_agree(p, a, q, b, start, before);
        lemma_trimmed_end(p, a, start, before);
    } else {
        assert(a.take(0) =~= Seq::<u8>::empty());
        assert(b.take(0) =~= Seq::<u8>::empty());
        assert(starts_here(p, a) == starts_here(q, b)) by {
            if total > 0 {
                assert(separates(p, a, 0) == separates(q, b, 0));
                assert(a[0] == 0x2e <==> b[0] == 0x2e);
            }
            if total > 1 {
                assert(separates(p, a, 1) == separates(q, b, 1));
            }
        }
    }
    lemma_components_agree(p, a, q, b);
    lemma_components_agree(q, b, p, a);
}

proof fn lemma_components_agree(p: Platform, a: Seq<u8>, q: Platform, b: Seq<u8>)
    requires
        a.len() == b.len(),
        path_prefix(p, a).len == path_prefix(q, b).len,
        path_prefix(p, a).len >= 0,
        forall|i: int| 0 <= i < a.len() ==> separates(p, a, i) == separates(q, b, i),
        forall|i: int| 0 <= i < a.len() ==> (a[i] == 0x2e <==> b[i] == 0x2e),
    ensures
        has_parent_component(p, a) ==> has_parent_component(q, b),
{
    if has_parent_component(p, a) {
        let i = choose|i: int| #[trigger] parent_component_at(p, a, i);
        assert(b[i] == 0x2e && b[i + 1] == 0x2e);
        if i > path_prefix(p, a).len {
            assert(separates(p, a, i - 1) == separates(q, b, i - 1));
        }
        if i + 2 < a.len() {
            assert(separates(p, a, i + 2) == separates(q, b, i + 2));
        }
        assert(parent_component_at(q, b, i));
    }
}

/// Paths on other platforms are read like those of Unix.
pub proof fn law_other_paths_are_read_like_those_of_unix(path: Seq<u8>)
    ensures
        has_parent_component(Platform::Other, path) == has_parent_component(Platform::Unix, path),
        parent_path(Platform::Other, path) == parent_path(Platform::Unix, path),
{
    lemma_parents_agree(Platform::Other, path, Platform::Unix, path);
}

/// A Windows path without a prefix is read like the Unix path in which every
/// backslash is a slash.
pub proof fn law_plain_windows_paths_are_read_like_those_of_unix(path: Seq<u8>)
    requires
        path.len() < 2 || !((path[0] == 0x2f || path[0] == 0x5c) && (path[1] == 0x2f || path[1]
            == 0x5c)),
        path.len() < 2 || path[1] != 0x3a,
    ensures
        ({
            let slashed = path.map_values(
                |byte: u8|
                    if byte == 0x5c {
                        0x2fu8
                    } else {
                        byte
                    },
            );
            &&& has_parent_component(Platform::Windows, path) == has_parent_component(
                Platform::Unix,
                slashed,
            )
            &&& match (
                parent_path(Platform::Windows, path),
                parent_path(Platform::Unix, slashed),
            ) {
                (Some(x), Some(y)) => x.len() == y.len() && x == path.take(x.len() as int),
                (None, None) => true,
                _ => false,
            }
        }),
{
    let slashed = path.map_values(
        |byte: u8|
            if byte == 0x5c {
                0x2fu8
            } else {
                byte
            },
    );
    lemma_parents_agree(Platform::Windows, path, Platform::Unix, slashed);
}

/// Behind a prefix that is not verbatim, both kinds of slash separate; behind a
/// verbatim one only the backslash does, except that a slash may be the root.
/// Outside Windows there is no prefix and only the slash separates.
pub proof fn law_separators(platform: Platform, path: Seq<u8>, i: int)
    requires
        0 <= i < path.len(),
    ensures
        platform !is Windows ==> path_prefix(platform, path).len == 0 && (separates(
            platform,
            path,
            i,
        ) <==> path[i] == 0x2f),
        platform is Windows && i < path_prefix(platform, path).len ==> !separates(
            platform,
            path,
            i,
        ),
        platform is Windows && i >= path_prefix(platform, path).len && !path_prefix(
            platform,
            path,
        ).verbatim ==> (separates(platform, path, i) <==> path[i] == 0x2f || path[i] == 0x5c),
        platform is Windows && i > path_prefix(platform, path).len && path_prefix(
            platform,
            path,
        ).verbatim ==> (separates(platform, path, i) <==> path[i] == 0x5c),
{
}

/// A name ends where the first separator stands.
proof fn lemma_name_end_is(path: Seq<u8>, from: int, verbatim: bool, end: int)
    requires
        0 <= from <= end <= path.len(),
        forall|i: int|
            from <= i < end ==> path[i] != 0x5c && (verbatim || #[trigger] path[i] != 0x2f),
        end == path.len() || path[end] == 0x5c || (!verbatim && path[end] == 0x2f),
    ensures
        name_end(path, from, verbatim) == end,
    decreases end - from,
{
    if from < end {
        assert(path[from] != 0x5c && (verbatim || path[from] != 0x2f));
        lemma_name_end_is(path, from + 1, verbatim, end);
    }
}

/// A drive letter with its colon is a prefix of two bytes; another character
/// with a colon is none.
pub proof fn law_drives_are_prefixes(path: Seq<u8>)
    requires
        path.len() >= 2,
        path[1] == 0x3a,
    ensures
        0x41 <= path[0] <= 0x5a || 0x61 <= path[0] <= 0x7a ==> path_prefix(
            Platform::Windows,
            path,
        ).len == 2,
        !(0x41 <= path[0] <= 0x5a || 0x61 <= path[0] <= 0x7a) ==> path_prefix(
            Platform::Windows,
            path,
        ).len == 0,
        !path_prefix(Platform::Windows, path).verbatim,
{
}

/// Two slashes, a server, a slash and a share are a prefix as a whole, whichever
/// way the slashes lean.
pub proof fn law_shares_are_prefixes(
    x: u8,
    y: u8,
    server: Seq<u8>,
    z: u8,
    share: Seq<u8>,
    rest: Seq<u8>,
)
    requires
        x == 0x5c || x == 0x2f,
        y == 0x5c || y == 0x2f,
        z == 0x5c || z == 0x2f,
        server.len() > 0,
        share.len() > 0,
        !server.contains(0x5c) && !server.contains(0x2f),
        !share.contains(0x5c) && !share.contains(0x2f),
        server != seq![0x3fu8] || x == 0x2f || y == 0x2f || z == 0x2f,
        server != seq![0x2eu8],
        rest.len() == 0 || rest[0] == 0x5c || rest[0] == 0x2f,
    ensures
        ({
            let path = seq![x, y] + server + seq![z] + share + rest;
            &&& path_prefix(Platform::Windows, path).len == 3 + server.len() + share.len()
            &&& !path_prefix(Platform::Windows, path).verbatim
        }),
{
    let path = seq![x, y] + server + seq![z] + share + rest;
    let first = 2 + server.len() as int;
    let second = first + 1 + share.len();
    assert forall|i: int| 2 <= i < first implies path[i] != 0x5c && #[trigger] path[i] != 0x2f by {
        assert(path[i] == server[i - 2]);
        assert(server.contains(server[i - 2]));
    }
    assert forall|i: int| first < i < second implies path[i] != 0x5c && #[trigger] path[i]
        != 0x2f by {
        assert(path[i] == share[i - first - 1]);
        assert(share.contains(share[i - first - 1]));
    }
    assert(path[first] == z);
    if rest.len() > 0 {
        assert(path[second] == rest[0]);
    }
    lemma_name_end_is(path, 2, false, first);
    lemma_name_end_is(path, first + 1, false, second);
    assert(path[2] == server[0]);
    if server.len() == 1 {
        assert(server =~= seq![server[0]]);
        assert(path[3] == z);
    } else {
        assert(path[3] == server[1]);
        assert(server.contains(server[1]));
    }
    let start = seq![0x5cu8, 0x5c, 0x3f, 0x5c];
    if path.take(4) == start {
        let found = path.take(4);
        assert(found[0] == start[0] && found[1] == start[1] && found[2] == start[2] && found[3]
            == start[3]);
    }
}

/// A server without a share is no prefix.
pub proof fn law_servers_alone_are_no_prefixes(x: u8, y: u8, server: Seq<u8>)
    requires
        x == 0x5c || x == 0x2f,
        y == 0x5c || y == 0x2f,
        !server.contains(0x5c) && !server.contains(0x2f),
    ensures
        path_prefix(Platform::Windows, seq![x, y] + server).len == 0,
        !path_prefix(Platform::Windows, seq![x, y] + server).verbatim,
{
    let path = seq![x, y] + server;
    assert forall|i: int| 2 <= i < path.len() implies path[i] != 0x5c && #[trigger] path[i]
        != 0x2f by {
        assert(path[i] == server[i - 2]);
        assert(server.contains(server[i - 2]));
    }
    lemma_name_end_is(path, 2, false, path.len() as int);
    let start = seq![0x5cu8, 0x5c, 0x3f, 0x5c];
    if path.len() >= 4 && path.take(4) == start {
        assert(path.take(4)[3] == start[3]);
    }
}

/// A device name is a prefix together with the `\\.\` in front of it, whichever
/// way the slashes lean.
pub proof fn law_devices_are_prefixes(x: u8, y: u8, z: u8, name: Seq<u8>, rest: Seq<u8>)
    requires
        x == 0x5c || x == 0x2f,
        y == 0x5c || y == 0x2f,
        z == 0x5c || z == 0x2f,
        !name.contains(0x5c) && !name.contains(0x2f),
        rest.len() == 0 || rest[0] == 0x5c || rest[0] == 0x2f,
    ensures
        ({
            let path = seq![x, y, 0x2eu8, z] + name + rest;
            &&& path_prefix(Platform::Windows, path).len == 4 + name.len()
            &&& !path_prefix(Platform::Windows, path).verbatim
        }),
{
    let path = seq![x, y, 0x2eu8, z] + name + rest;
    let last = 4 + name.len() as int;
    assert forall|i: int| 4 <= i < last implies path[i] != 0x5c && #[trigger] path[i] != 0x2f by {
        assert(path[i] == name[i - 4]);
        assert(name.contains(name[i - 4]));
    }
    if rest.len() > 0 {
        assert(path[last] == rest[0]);
    }
    lemma_name_end_is(path, 4, false, last);
    let start = seq![0x5cu8, 0x5c, 0x3f, 0x5c];
    if path.take(4) == start {
        assert(path.take(4)[2] == start[2]);
    }
}

/// Behind `\\?\`, a drive is a verbatim prefix of six bytes.
pub proof fn law_verbatim_drives_are_prefixes(letter: u8, rest: Seq<u8>)
    requires
        0x41 <= letter <= 0x5a || 0x61 <= letter <= 0x7a,
        rest.len() == 0 || rest[0] == 0x5c || rest[0] == 0x2f,
    ensures
        ({
            let path = seq![0x5cu8, 0x5cu8, 0x3fu8, 0x5cu8, letter, 0x3au8] + rest;
            &&& path_prefix(Platform::Windows, path).len == 6
            &&& path_prefix(Platform::Windows, path).verbatim
        }),
{
    let path = seq![0x5cu8, 0x5cu8, 0x3fu8, 0x5cu8, letter, 0x3au8] + rest;
    assert(path.take(4) =~= seq![0x5cu8, 0x5c, 0x3f, 0x5c]);
    let name = seq![0x55u8, 0x4e, 0x43];
    if path.len() >= 8 && path.subrange(4, 7) == name {
        assert(path.subrange(4, 7)[1] == name[1]);
    }
    if rest.len() > 0 {
        assert(path[6] == rest[0]);
    }
}

/// Behind `\\?\UNC\`, a server and a share are a verbatim prefix, in which a
/// slash is a letter like any other.
pub proof fn law_verbatim_shares_are_prefixes(
    z: u8,
    server: Seq<u8>,
    share: Seq<u8>,
    rest: Seq<u8>,
)
    requires
        z == 0x5c || z == 0x2f,
        share.len() > 0,
        !server.contains(0x5c),
        !share.contains(0x5c),
        rest.len() == 0 || rest[0] == 0x5c,
    ensures
        ({
            let path = seq![0x5cu8, 0x5cu8, 0x3fu8, 0x5cu8, 0x55u8, 0x4eu8, 0x43u8, z] + server
                + seq![0x5cu8] + share + rest;
            &&& path_prefix(Platform::Windows, path).len == 9 + server.len() + share.len()
            &&& path_prefix(Platform::Windows, path).verbatim
        }),
{
    let path = seq![0x5cu8, 0x5cu8, 0x3fu8, 0x5cu8, 0x55u8, 0x4eu8, 0x43u8, z] + server + seq![
        0x5cu8,
    ] + share + rest;
    let first = 8 + server.len() as int;
    let second = first + 1 + share.len();
    assert forall|i: int| 8 <= i < first implies #[trigger] path[i] != 0x5c by {
        assert(path[i] == server[i - 8]);
        assert(server.contains(server[i - 8]));
    }
    assert forall|i: int| first < i < second implies #[trigger] path[i] != 0x5c by {
        assert(path[i] == share[i - first - 1]);
        assert(share.contains(share[i - first - 1]));
    }
    assert(path[first] == 0x5c);
    if rest.len() > 0 {
        assert(path[second] == rest[0]);
    }
    lemma_name_end_is(path, 8, true, first);
    lemma_name_end_is(path, first + 1, true, second);
    assert(path.take(4) =~= seq![0x5cu8, 0x5c, 0x3f, 0x5c]);
    assert(path.subrange(4, 7) =~= seq![0x55u8, 0x4e, 0x43]);
}

/// Behind `\\?\UNC\`, a server without a share is the prefix.
pub proof fn law_verbatim_servers_are_prefixes(z: u8, server: Seq<u8>)
    requires
        z == 0x5c || z == 0x2f,
        !server.contains(0x5c),
    ensures
        ({
            let path = seq![0x5cu8, 0x5cu8, 0x3fu8, 0x5cu8, 0x55u8, 0x4eu8, 0x43u8, z] + server;
            &&& path_prefix(Platform::Windows, path).len == 8 + server.len()
            &&& path_prefix(Platform::Windows, path).verbatim
        }),
{
    let path = seq![0x5cu8, 0x5cu8, 0x3fu8, 0x5cu8, 0x55u8, 0x4eu8, 0x43u8, z] + server;
    assert forall|i: int| 8 <= i < path.len() implies #[trigger] path[i] != 0x5c by {
        assert(path[i] == server[i - 8]);
        assert(server.contains(server[i - 8]));
    }
    lemma_name_end_is(path, 8, true, path.len() as int);
    assert(path.take(4) =~= seq![0x5cu8, 0x5c, 0x3f, 0x5c]);
    assert(path.subrange(4, 7) =~= seq![0x55u8, 0x4e, 0x43]);
}

/// Behind `\\?\`, any other name is a verbatim prefix up to the next backslash.
pub proof fn law_verbatim_names_are_prefixes(name: Seq<u8>, rest: Seq<u8>)
    requires
        !name.contains(0x5c),
        rest.len() == 0 || rest[0] == 0x5c,
        name != seq![0x55u8, 0x4e, 0x43] || rest.len() == 0,
        name.len() < 4 || name.take(3) != seq![0x55u8, 0x4e, 0x43] || name[3] != 0x2f,
        name.len() < 3 || name[1] != 0x3a || name[2] != 0x2f,
    ensures
        ({
            let path = seq![0x5cu8, 0x5cu8, 0x3fu8, 0x5cu8] + name + rest;
            &&& path_prefix(Platform::Windows, path).len == 4 + name.len()
            &&& path_prefix(Platform::Windows, path).verbatim
        }),
{
    let path = seq![0x5cu8, 0x5cu8, 0x3fu8, 0x5cu8] + name + rest;
    let last = 4 + name.len() as int;
    assert forall|i: int| 4 <= i < last implies #[trigger] path[i] != 0x5c by {
        assert(path[i] == name[i - 4]);
        assert(name.contains(name[i - 4]));
    }
    if rest.len() > 0 {
        assert(path[last] == rest[0]);
    }
    lemma_name_end_is(path, 4, true, last);
    assert(path.take(4) =~= seq![0x5cu8, 0x5c, 0x3f, 0x5c]);
    let unc = seq![0x55u8, 0x4e, 0x43];
    if path.len() >= 8 && path.subrange(4, 7) == unc && is_slash(path[7]) {
        let found = path.subrange(4, 7);
        assert(found[0] == unc[0] && found[1] == unc[1] && found[2] == unc[2]);
        if name.len() == 0 {
            assert(path[4] == rest[0]);
        } else if name.len() == 1 {
            assert(path[5] == rest[0]);
        } else if name.len() == 2 {
            assert(path[6] == rest[0]);
        } else if name.len() == 3 {
            assert(name =~= unc);
        } else {
            assert(name.take(3) =~= unc);
            assert(path[7] == name[3]);
            assert(name.contains(name[3]));
        }
    } else if drive_at(path, 4) && (path.len() == 6 || is_slash(path[6])) {
        if name.len() == 0 {
            assert(path[4] == rest[0]);
        } else if name.len() == 1 {
            assert(path[5] == rest[0]);
        } else if name.len() > 2 {
            assert(path[6] == name[2] && path[5] == name[1]);
            assert(name.contains(name[2]));
        }
    }
}

/// Names behind a prefix stand where they stand in a path without one.
proof fn lemma_names_shift(path: Seq<u8>, n: int, rest: Seq<u8>, start: int, end: int)
    requires
        0 <= start <= end <= rest.len(),
        0 <= n,
        path.len() == n + rest.len(),
        forall|i: int|
            0 <= i < rest.len() ==> (separates(Platform::Windows, path, i + n) <==> separates(
                Platform::Unix,
                rest,
                i,
            )),
        forall|i: int|
            0 <= i < rest.len() ==> (path[i + n] == 0x2e && !path_prefix(
                Platform::Windows,
                path,
            ).verbatim <==> rest[i] == 0x2e),
    ensures
        last_name(Platform::Windows, path, start + n, end + n) == last_name(
            Platform::Unix,
            rest,
            start,
            end,
        ) + n,
        trimmed_end(Platform::Windows, path, start + n, end + n) == trimmed_end(
            Platform::Unix,
            rest,
            start,
            end,
        ) + n,
    decreases end - start,
{
    if end > start {
        assert(separates(Platform::Windows, path, (end - 1) + n) <==> separates(
            Platform::Unix,
            rest,
            end - 1,
        ));
        lemma_names_shift(path, n, rest, start, end - 1);
        lemma_last_name(Platform::Unix, rest, start, end);
        let from = last_name(Platform::Unix, rest, start, end);
        let shorter = without_last_name(Platform::Unix, rest, start, end);
        if start <= shorter < end {
            lemma_names_shift(path, n, rest, start, shorter);
        }
        if from < rest.len() {
            assert(path[from + n] == 0x2e && !path_prefix(Platform::Windows, path).verbatim
                <==> rest[from] == 0x2e);
        }
    }
}

/// The parent behind a prefix is the one of the path without it.
proof fn lemma_parent_shifts(path: Seq<u8>, rest: Seq<u8>)
    requires
        ({
            let prefix = path_prefix(Platform::Windows, path);
            &&& path.len() == prefix.len + rest.len()
            &&& prefix.len > 2 || rest.len() == 0 || path[prefix.len] != 0x2e
            &&& rest.len() == 0 || rest[0] != 0x2e
            &&& forall|i: int|
                0 <= i < rest.len() ==> (separates(Platform::Windows, path, i + prefix.len)
                    <==> separates(Platform::Unix, rest, i))
            &&& forall|i: int|
                0 <= i < rest.len() ==> (path[i + prefix.len] == 0x2e && !prefix.verbatim
                    <==> rest[i] == 0x2e)
        }),
    ensures
        parent_path(Platform::Windows, path) == match parent_path(Platform::Unix, rest) {
            Some(parent) => Some(
                path.take(path_prefix(Platform::Windows, path).len + parent.len()),
            ),
            None => None,
        },
{
    let n = path_prefix(Platform::Windows, path).len;
    lemma_prefix_fits(Platform::Windows, path);
    let total = rest.len() as int;
    let start = names_start(Platform::Unix, rest);
    if total > 0 {
        assert(separates(Platform::Windows, path, 0 + n) <==> separates(Platform::Unix, rest, 0));
    }
    assert(names_start(Platform::Windows, path) == start + n);
    lemma_names_shift(path, n, rest, start, total);
    lemma_trimmed_end(Platform::Unix, rest, start, total);
    let end = trimmed_end(Platform::Unix, rest, start, total);
    if end > start {
        lemma_names_shift(path, n, rest, start, end);
        lemma_last_name(Platform::Unix, rest, start, end);
        let before = without_last_name(Platform::Unix, rest, start, end);
        lemma_names_shift(path, n, rest, start, before);
        lemma_trimmed_end(Platform::Unix, rest, start, before);
    }
}

proof fn lemma_components_shift(path: Seq<u8>, rest: Seq<u8>)
    requires
        ({
            let prefix = path_prefix(Platform::Windows, path);
            &&& path.len() == prefix.len + rest.len()
            &&& forall|i: int|
                0 <= i < rest.len() ==> (separates(Platform::Windows, path, i + prefix.len)
                    <==> separates(Platform::Unix, rest, i))
            &&& forall|i: int|
                0 <= i < rest.len() ==> (path[i + prefix.len] == 0x2e <==> rest[i] == 0x2e)
        }),
    ensures
        has_parent_component(Platform::Windows, path) <==> has_parent_component(
            Platform::Unix,
            rest,
        ),
{
    let n = path_prefix(Platform::Windows, path).len;
    lemma_prefix_fits(Platform::Windows, path);
    assert forall|i: int| 0 <= i implies parent_component_at(Platform::Windows, path, i + n)
        == #[trigger] parent_component_at(Platform::Unix, rest, i) by {
        if i + 2 <= rest.len() {
            assert(path[i + n] == 0x2e <==> rest[i] == 0x2e);
            assert(path[(i + 1) + n] == 0x2e <==> rest[i + 1] == 0x2e);
            if i > 0 {
                assert(separates(Platform::Windows, path, (i - 1) + n) <==> separates(
                    Platform::Unix,
                    rest,
                    i - 1,
                ));
            }
            if i + 2 < rest.len() {
                assert(separates(Platform::Windows, path, (i + 2) + n) <==> separates(
                    Platform::Unix,
                    rest,
                    i + 2,
                ));
            }
        }
    }
    if has_parent_component(Platform::Windows, path) {
        let i = choose|i: int| #[trigger] parent_component_at(Platform::Windows, path, i);
        assert(parent_component_at(Platform::Unix, rest, i - n));
    }
    if has_parent_component(Platform::Unix, rest) {
        let i = choose|i: int| #[trigger] parent_component_at(Platform::Unix, rest, i);
        assert(parent_component_at(Platform::Windows, path, i + n));
    }
}

/// Behind a prefix that is not verbatim, the rest of a Windows path is read like
/// the Unix path in which every backslash is a slash: it has a `..` where that
/// has one, and, unless it starts with a dot, its parent is the prefix with the
/// parent of that.
pub proof fn law_windows_paths_are_read_behind_their_prefix(path: Seq<u8>)
    requires
        !path_prefix(Platform::Windows, path).verbatim,
    ensures
        ({
            let n = path_prefix(Platform::Windows, path).len;
            let rest = path.skip(n).map_values(
                |byte: u8|
                    if byte == 0x5c {
                        0x2fu8
                    } else {
                        byte
                    },
            );
            &&& has_parent_component(Platform::Windows, path) <==> has_parent_component(
                Platform::Unix,
                rest,
            )
            &&& rest.len() == 0 || rest[0] != 0x2e ==> parent_path(Platform::Windows, path)
                == match parent_path(Platform::Unix, rest) {
                Some(parent) => Some(path.take(n + parent.len())),
                None => None,
            }
        }),
{
    let n = path_prefix(Platform::Windows, path).len;
    lemma_prefix_fits(Platform::Windows, path);
    let rest = path.skip(n).map_values(
        |byte: u8|
            if byte == 0x5c {
                0x2fu8
            } else {
                byte
            },
    );
    assert forall|i: int| 0 <= i < rest.len() implies (separates(Platform::Windows, path, i + n)
        <==> separates(Platform::Unix, rest, i)) by {
        assert(path.skip(n)[i] == path[i + n]);
    }
    assert forall|i: int| 0 <= i < rest.len() implies (path[i + n] == 0x2e <==> rest[i] == 0x2e) by {
        assert(path.skip(n)[i] == path[i + n]);
    }
    lemma_components_shift(path, rest);
    if rest.len() == 0 || rest[0] != 0x2e {
        lemma_parent_shifts(path, rest);
    }
}

/// Behind a verbatim prefix only backslashes separate, a dot is a name like any
/// other, and so is a slash that is not the root; a `..` is one all the same.
pub proof fn law_verbatim_paths_are_taken_literally(path: Seq<u8>)
    requires
        path_prefix(Platform::Windows, path).verbatim,
    ensures
        ({
            let n = path_prefix(Platform::Windows, path).len;
            let plain = Seq::new(
                (path.len() - n) as nat,
                |i: int|
                    if path[i + n] == 0x5c || (i == 0 && path[n] == 0x2f) {
                        0x2fu8
                    } else if path[i + n] == 0x2f {
                        0x78u8
                    } else {
                        path[i + n]
                    },
            );
            let named = plain.map_values(
                |byte: u8|
                    if byte == 0x2e {
                        0x78u8
                    } else {
                        byte
                    },
            );
            &&& has_parent_component(Platform::Windows, path) <==> has_parent_component(
                Platform::Unix,
                plain,
            )
            &&& parent_path(Platform::Windows, path) == match parent_path(Platform::Unix, named) {
                Some(parent) => Some(path.take(n + parent.len())),
                None => None,
            }
        }),
{
    let n = path_prefix(Platform::Windows, path).len;
    lemma_prefix_fits(Platform::Windows, path);
    lemma_name_end(path, 4, true);
    if path.len() >= 8 {
        lemma_share_end(path, 8, true);
    }
    let plain = Seq::new(
        (path.len() - n) as nat,
        |i: int|
            if path[i + n] == 0x5c || (i == 0 && path[n] == 0x2f) {
                0x2fu8
            } else if path[i + n] == 0x2f {
                0x78u8
            } else {
                path[i + n]
            },
    );
    let named = plain.map_values(
        |byte: u8|
            if byte == 0x2e {
                0x78u8
            } else {
                byte
            },
    );
    lemma_components_shift(path, plain);
    lemma_parent_shifts(path, named);
}

} // verus!
