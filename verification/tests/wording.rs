use zed_lock::error::{IoErrorKind, IoFailure, IoStep, LockError};
use zed_lock::owner::OwnerInfo;
use zed_lock::path::{LockPath, Platform};
use zed_lock::span::{Span, WallTime};

fn owner(acquired_at: WallTime) -> OwnerInfo {
    OwnerInfo {
        pid: 42,
        hostname: Some("a\r\nb".to_owned()),
        executable: None,
        thread: Some("main".to_owned()),
        operation: "in\nstall".to_owned(),
        acquired_at,
    }
}

#[test]
fn diagnostics_have_one_line_per_field() {
    let body = owner(WallTime::SinceEpoch(Span::new(3, 2_999_999))).owner_diagnostics();
    assert_eq!(
        body,
        "# zed-lock diagnostics only; descriptor ownership is authoritative\npid=42\nhostname=a  b\nexecutable=\nthread=main\noperation=in stall\nacquired_unix_ms=3002\n"
    );
}

#[test]
fn a_clock_before_the_epoch_counts_as_the_epoch() {
    assert_eq!(
        owner(WallTime::BeforeEpoch(Span::new(9, 0))).acquired_unix_millis(),
        0
    );
    assert_eq!(
        owner(WallTime::SinceEpoch(Span::new(u64::MAX, 999_999_999))).acquired_unix_millis(),
        u64::MAX as u128 * 1000 + 999
    );
}

#[test]
fn spans_are_written_like_durations() {
    assert_eq!(Span::zero().render(), "0ns");
    assert_eq!(Span::new(120, 0).render(), "120s");
    assert_eq!(Span::new(0, 20_000_000).render(), "20ms");
    assert_eq!(Span::new(1, 500_000_000).render(), "1.5s");
}

#[test]
fn spans_subtract_down_to_zero() {
    let left = Span::new(5, 1).saturating_sub(Span::new(2, 2));
    assert_eq!((left.secs(), left.subsec_nanos()), (2, 999_999_999));
    assert!(Span::new(1, 0).saturating_sub(Span::new(1, 1)).is_zero());
    assert!(!Span::new(0, 1).is_zero());
    assert_eq!(Span::new(2, 1_999_999).millis(), 2001);
}

#[test]
fn failed_calls_name_the_call_and_the_path() {
    let cases = [
        (IoStep::InspectDirectory, "inspecting lock directory /d: no"),
        (IoStep::CreateDirectory, "creating lock directory /d: no"),
        (IoStep::OpenDirectory, "opening lock directory /d: no"),
        (IoStep::StatDirectory, "stat lock directory /d: no"),
        (IoStep::RestrictDirectory, "setting lock directory mode /d: no"),
        (
            IoStep::HardenDirectory,
            "restricting lock directory /d to mode 0700: no",
        ),
        (IoStep::ApplyDacl, "applying private DACL to /d: no"),
        (IoStep::OpenFile, "opening lock file /d: no"),
        (IoStep::StatCreatedFile, "stat created lock file /d: no"),
        (IoStep::RestrictFile, "setting lock file mode /d: no"),
        (IoStep::StatOpenedFile, "stat opened lock file: no"),
        (IoStep::Canonicalize, "canonicalizing lock identity /d: no"),
        (IoStep::TryLock, "trying operating-system lock /d: no"),
        (IoStep::Unlock, "unlocking descriptor lock /d: no"),
    ];
    for (step, expected) in cases {
        let error = LockError::Io {
            step,
            path: LockPath::from_text("/d"),
            failure: IoFailure {
                kind: IoErrorKind::Other,
                raw_os_error: None,
                message: "no".to_owned(),
            },
        };
        assert_eq!(error.report(Platform::Unix), expected);
    }
}

#[test]
fn refusals_say_why() {
    let cases = [
        (
            LockError::ParentDirComponent,
            "lock path must not contain `..` components",
        ),
        (
            LockError::DirectoryIsSymlink,
            "lock directory is a symlink; refusing substitution",
        ),
        (LockError::ParentNotDirectory, "lock parent is not a directory"),
        (
            LockError::DirectoryIsReparsePoint,
            "lock directory is a reparse point or junction; refusing substitution",
        ),
        (
            LockError::DirectoryNotOwned,
            "lock directory is not owned by the current user",
        ),
        (
            LockError::DirectoryWritable,
            "lock directory is group- or world-writable; refusing under the private path policy",
        ),
        (
            LockError::DirectoryNotReal {
                path: LockPath::from_text("/d"),
            },
            "lock directory /d is not a real directory",
        ),
        (LockError::NotRegularFile, "lock path is not a regular file"),
        (
            LockError::FileNotOwned,
            "lock file is not owned by the current user",
        ),
        (
            LockError::FileNotPrivate,
            "lock file permissions are not owner-only; refusing to use a group- or world-accessible rendezvous",
        ),
        (
            LockError::FileIsReparsePoint,
            "lock path is a reparse point or junction; refusing substitution",
        ),
        (
            LockError::FinalComponentIsSymlink {
                path: LockPath::from_text("/d/l"),
            },
            "lock path final component is a symlink; refusing substitution (/d/l)",
        ),
        (
            LockError::ForeignRendezvous {
                opened: LockPath::from_text("/d/o"),
                requested: LockPath::from_text("/d/r"),
            },
            "lock file /d/o was not opened for the request at /d/r",
        ),
        (
            LockError::DuplicateIdentity {
                path: LockPath::from_text("/d/l"),
            },
            "duplicate canonical lock identity in one lock set: /d/l",
        ),
        (
            LockError::TimedOut {
                timeout: Span::new(120, 0),
                operation: "install".to_owned(),
                path: LockPath::from_text("/d/l"),
            },
            "timed out after 120s waiting for `install` at /d/l",
        ),
    ];
    for (error, expected) in cases {
        assert_eq!(error.message(Platform::Unix), expected);
        assert!(error.cause().is_none());
        assert_eq!(error.report(Platform::Unix), expected);
    }
}
