use zed_lock::error::{IoErrorKind, IoFailure, LockError};
use zed_lock::path::{LockPath, Platform};
use zed_lock::policy::{FinalComponentOpenIntent, PathSecurityPolicy};
use zed_lock::rendezvous::{
    open_lock_file, open_request, DirectoryStage, OpenAttempt, OpenStep, TightenStage,
};
use zed_lock::request::LockRequest;
use zed_lock::sddl::user_private_sddl;
use zed_lock::vetting::{
    check_ancestor, harden_lock_root_permissions, validate_existing_lock_directory,
    validate_opened_lock_file, DaclFacts, DirectoryList, EntryFacts, HostFacts,
};

const ME: u32 = 1000;
const ELOOP: i32 = 40;
const SID: &str = "S-1-5-21-1-2-3-1001";

#[derive(Clone)]
struct Entry {
    path: String,
    facts: EntryFacts,
    sddl: String,
    protected: bool,
}

fn facts(mode: u32) -> EntryFacts {
    EntryFacts {
        is_symlink: false,
        is_dir: false,
        is_file: false,
        owner: ME,
        mode,
        attributes: 0,
    }
}

fn dir(mode: u32) -> EntryFacts {
    EntryFacts {
        is_dir: true,
        ..facts(mode)
    }
}

fn file(mode: u32) -> EntryFacts {
    EntryFacts {
        is_file: true,
        ..facts(mode)
    }
}

fn link() -> EntryFacts {
    EntryFacts {
        is_symlink: true,
        ..facts(0o777)
    }
}

/// A file system in memory, with a log of the calls made.
struct Disk {
    host: HostFacts,
    entries: Vec<Entry>,
    calls: Vec<String>,
    appears_meanwhile: Option<EntryFacts>,
    unsealable: Option<IoErrorKind>,
}

fn disk(platform: Platform) -> Disk {
    Disk {
        host: HostFacts {
            platform,
            user: ME,
            symlink_error: if platform == Platform::Unix {
                Some(ELOOP)
            } else {
                None
            },
        },
        entries: Vec::new(),
        calls: Vec::new(),
        appears_meanwhile: None,
        unsealable: None,
    }
}

fn failed(kind: IoErrorKind, raw_os_error: Option<i32>) -> IoFailure {
    IoFailure {
        kind,
        raw_os_error,
        message: "simulated failure".to_owned(),
    }
}

impl Disk {
    fn with(mut self, path: &str, facts: EntryFacts) -> Disk {
        self.entries.push(Entry {
            path: path.to_owned(),
            facts,
            sddl: format!("D:AI(A;OICI;FA;;;{SID})(A;ID;FR;;;BU)"),
            protected: false,
        });
        self
    }

    fn with_list(mut self, path: &str, facts: EntryFacts, sddl: &str) -> Disk {
        self = self.with(path, facts);
        self.entries.last_mut().unwrap().sddl = sddl.to_owned();
        self
    }

    fn find(&mut self, path: &LockPath) -> Option<&mut Entry> {
        let path = path.display(Platform::Unix);
        self.entries.iter_mut().find(|entry| entry.path == path)
    }

    fn stat(&mut self, path: &LockPath) -> Result<EntryFacts, IoFailure> {
        match self.find(path) {
            Some(entry) => Ok(entry.facts),
            None => Err(failed(IoErrorKind::NotFound, Some(2))),
        }
    }

    fn create(&mut self, path: &LockPath, facts: EntryFacts) -> Result<(), IoFailure> {
        if self.find(path).is_some() {
            return Err(failed(IoErrorKind::AlreadyExists, Some(17)));
        }
        let path = path.display(Platform::Unix);
        self.entries.push(Entry {
            path,
            facts,
            sddl: format!("D:AI(A;ID;FA;;;{SID})"),
            protected: false,
        });
        Ok(())
    }

    fn chmod(&mut self, path: &LockPath, mode: u32) -> Result<(), IoFailure> {
        self.find(path).unwrap().facts.mode = mode;
        Ok(())
    }

    fn apply_list(&mut self, path: &LockPath) -> Result<(), IoFailure> {
        let entry = self.find(path).unwrap();
        entry.sddl = format!("D:PAI(A;;FA;;;{SID})");
        entry.protected = true;
        Ok(())
    }

    fn list(&mut self, path: &LockPath) -> Result<DaclFacts, IoFailure> {
        let entry = self.find(path).unwrap();
        Ok(DaclFacts {
            sddl: entry.sddl.clone(),
            canonical: user_private_sddl(SID),
            control: if entry.protected { 0x9004 } else { 0x8404 },
        })
    }

    fn parent_list(&mut self, path: &LockPath) -> Result<DirectoryList, IoFailure> {
        let entry = self.find(path).unwrap();
        Ok(DirectoryList {
            sddl: entry.sddl.clone(),
            sid: SID.to_owned(),
        })
    }

    fn log(&mut self, call: &str, path: &LockPath) {
        self.calls.push(format!("{call} {}", path.display(Platform::Unix)));
    }

    fn run(&mut self, begun: Result<OpenStep, LockError>, path: &str) -> Result<LockPath, LockError> {
        let target = LockPath::from_text(path);
        let mut step = begun?;
        loop {
            step = match step {
                OpenStep::InspectAncestor(walk) => {
                    let cursor = walk.cursor().clone();
                    self.log("inspect", &cursor);
                    let found = self.stat(&cursor);
                    walk.resume(found)?
                }
                OpenStep::CreateDirectory(creation) => {
                    let directory = creation.directory().clone();
                    let mode = creation.mode();
                    let done = match creation.stage() {
                        DirectoryStage::Create => {
                            self.log("mkdir", &directory);
                            self.create(&directory, dir(0o755))
                        }
                        DirectoryStage::OpenNoFollow | DirectoryStage::Stat => Ok(()),
                        DirectoryStage::Restrict => self.chmod(&directory, mode),
                        DirectoryStage::ApplyDacl => self.apply_list(&directory),
                    };
                    creation.resume(done)?
                }
                OpenStep::VerifyDirectoryDacl(check) => {
                    let directory = check.directory().clone();
                    let list = self.list(&directory);
                    check.resume(list)?
                }
                OpenStep::CheckParent(check) => {
                    let parent = check.parent().clone();
                    let found = self.stat(&parent);
                    check.resume(found)?
                }
                OpenStep::CheckParentDacl(check) => {
                    let parent = check.parent().clone();
                    let list = self.parent_list(&parent);
                    check.resume(list)?
                }
                OpenStep::HardenParent(hardening) => {
                    let parent = hardening.parent().clone();
                    self.log("harden", &parent);
                    let done = self.chmod(&parent, hardening.mode());
                    hardening.resume(done)?
                }
                OpenStep::OpenFinal(open) => {
                    assert!(!open.inheritable());
                    assert_eq!(
                        open.intent(),
                        FinalComponentOpenIntent::for_policy(PathSecurityPolicy::Private)
                    );
                    let done = match open.attempt() {
                        OpenAttempt::Existing => {
                            self.log("open", &target);
                            match self.stat(open.path()) {
                                Ok(found) if found.is_symlink && self.host.symlink_error.is_some() => {
                                    Err(failed(IoErrorKind::Other, self.host.symlink_error))
                                }
                                Ok(_) => Ok(()),
                                Err(failure) => Err(failure),
                            }
                        }
                        OpenAttempt::CreateExclusive => {
                            self.log("create", &target);
                            if let Some(winner) = self.appears_meanwhile.take() {
                                self.create(&target, winner).unwrap();
                            }
                            self.create(open.path(), file(0o644 & open.mode()))
                        }
                    };
                    open.resume(done)?
                }
                OpenStep::SealHandle(sealing) => {
                    self.log("seal", &target);
                    let done = match self.unsealable.take() {
                        Some(kind) => Err(failed(kind, Some(6))),
                        None => Ok(()),
                    };
                    sealing.resume(done)?
                }
                OpenStep::Tighten(tightening) => {
                    let done = match tightening.stage() {
                        TightenStage::Stat => Ok(()),
                        TightenStage::Restrict => {
                            self.log("restrict", &target);
                            self.chmod(tightening.path(), tightening.mode())
                        }
                        TightenStage::ApplyDacl => self.apply_list(tightening.path()),
                    };
                    tightening.resume(done)?
                }
                OpenStep::CheckFile(check) => {
                    let found = self.stat(&target);
                    check.resume(found)?
                }
                OpenStep::ApplyFileDacl(apply) => {
                    self.log("protect", &target);
                    let done = self.apply_list(apply.path());
                    apply.resume(done)?
                }
                OpenStep::CheckFileDacl(check) => {
                    let list = self.list(&target);
                    check.resume(list)?
                }
                OpenStep::Canonicalize(resolve) => {
                    let resolved = resolve.path().clone();
                    resolve.resume(Ok(resolved))?
                }
                OpenStep::Opened(opened) => return Ok(opened.canonical_lock_path()),
            };
        }
    }

    fn open(&mut self, path: &str, policy: PathSecurityPolicy) -> Result<LockPath, LockError> {
        let begun = open_lock_file(
            LockPath::from_text(path),
            policy,
            self.host,
            false,
        );
        self.run(begun, path)
    }

    fn open_for_request(&mut self, request: &LockRequest) -> Result<LockPath, LockError> {
        let path = request.path().display(Platform::Unix);
        let begun = open_request(request, self.host);
        self.run(begun, &path)
    }

    fn mode(&mut self, path: &str) -> u32 {
        self.find(&LockPath::from_text(path)).unwrap().facts.mode
    }
}

#[test]
fn unix_private_open_creates_0700_dir_and_0600_file() {
    let mut disk = disk(Platform::Unix).with("/tmp", dir(0o700));
    let path = "/tmp/locks/install.lock";
    let identity = disk.open(path, PathSecurityPolicy::Private).unwrap();
    assert_eq!(disk.mode("/tmp/locks"), 0o700);
    assert_eq!(disk.mode(path), 0o600);
    assert_eq!(identity.display(Platform::Unix), path);
}

#[test]
fn unix_private_open_refuses_final_component_symlink() {
    let mut disk = disk(Platform::Unix)
        .with("/tmp", dir(0o700))
        .with("/tmp/alias.lock", link());
    let error = disk
        .open("/tmp/alias.lock", PathSecurityPolicy::Private)
        .unwrap_err();
    let message = error.report(Platform::Unix);
    assert!(
        message.contains("symlink") || message.contains("substitution"),
        "unexpected diagnostic: {message}"
    );
    assert_eq!(
        message,
        "lock path final component is a symlink; refusing substitution (/tmp/alias.lock)"
    );
}

#[test]
fn unix_private_open_refuses_symlink_parent() {
    let mut disk = disk(Platform::Unix)
        .with("/tmp", dir(0o700))
        .with("/tmp/linked", link());
    let error = disk
        .open("/tmp/linked/install.lock", PathSecurityPolicy::Private)
        .unwrap_err();
    assert!(error.report(Platform::Unix).contains("symlink"));
}

#[test]
fn unix_private_open_refuses_permissive_existing_file() {
    let mut disk = disk(Platform::Unix)
        .with("/tmp", dir(0o700))
        .with("/tmp/wide.lock", file(0o666));
    let error = disk
        .open("/tmp/wide.lock", PathSecurityPolicy::Private)
        .unwrap_err();
    assert!(error.report(Platform::Unix).contains("owner-only"));
    assert_eq!(disk.mode("/tmp/wide.lock"), 0o666);
}

#[test]
fn unix_shared_policy_allows_existing_group_readable_file() {
    let mut disk = disk(Platform::Unix)
        .with("/tmp", dir(0o700))
        .with("/tmp/shared.lock", file(0o640));
    assert!(disk
        .open("/tmp/shared.lock", PathSecurityPolicy::Shared)
        .is_ok());
}

#[test]
fn unix_private_open_refuses_group_writable_parent() {
    let mut disk = disk(Platform::Unix)
        .with("/tmp", dir(0o700))
        .with("/tmp/shared-parent", dir(0o770));
    let error = disk
        .open("/tmp/shared-parent/install.lock", PathSecurityPolicy::Private)
        .unwrap_err();
    assert!(error.report(Platform::Unix).contains("writable"));
}

#[test]
fn lock_root_is_private_even_when_seeded_wide() {
    let mut disk = disk(Platform::Unix).with("/tmp/root", dir(0o755));
    let request = LockRequest::exclusive(LockPath::from_text("/tmp/root/install.lock"))
        .operation("privacy regression");
    disk.open_for_request(&request).unwrap();
    let mode = disk.mode("/tmp/root");
    assert_eq!(
        mode & 0o077,
        0,
        "lock root remained group/other accessible: {mode:o}"
    );
}

#[test]
fn shared_requests_leave_the_directory_alone() {
    let mut disk = disk(Platform::Unix).with("/tmp/root", dir(0o775));
    let request = LockRequest::exclusive(LockPath::from_text("/tmp/root/x.lock")).shared_path();
    disk.open_for_request(&request).unwrap();
    assert_eq!(disk.mode("/tmp/root"), 0o775);
}

#[test]
fn a_closed_directory_is_not_hardened_again() {
    let mut disk = disk(Platform::Unix).with("/tmp/root", dir(0o700));
    let request = LockRequest::exclusive(LockPath::from_text("/tmp/root/x.lock"));
    disk.open_for_request(&request).unwrap();
    assert!(!disk.calls.iter().any(|call| call.starts_with("harden")));
}

#[test]
fn missing_directories_are_made_outermost_first() {
    let mut disk = disk(Platform::Unix).with("/tmp", dir(0o700));
    disk.open("/tmp/a/b/c/x.lock", PathSecurityPolicy::Private)
        .unwrap();
    assert_eq!(
        disk.calls,
        vec![
            "inspect /tmp/a/b/c",
            "inspect /tmp/a/b",
            "inspect /tmp/a",
            "inspect /tmp",
            "mkdir /tmp/a",
            "mkdir /tmp/a/b",
            "mkdir /tmp/a/b/c",
            "open /tmp/a/b/c/x.lock",
            "create /tmp/a/b/c/x.lock",
            "restrict /tmp/a/b/c/x.lock",
        ]
    );
    assert_eq!(disk.mode("/tmp/a/b"), 0o700);
}

#[test]
fn a_bare_file_name_has_no_directory_to_check() {
    let mut disk = disk(Platform::Unix);
    disk.open("x.lock", PathSecurityPolicy::Private).unwrap();
    assert_eq!(disk.calls[0], "open x.lock");
}

#[test]
fn a_relative_directory_may_be_missing_altogether() {
    let mut disk = disk(Platform::Unix);
    disk.open("locks/x.lock", PathSecurityPolicy::Private)
        .unwrap();
    assert_eq!(disk.mode("locks"), 0o700);
}

#[test]
fn parent_components_stop_an_opening_before_any_call() {
    let mut disk = disk(Platform::Unix).with("/tmp", dir(0o700));
    let error = disk
        .open("/tmp/../x.lock", PathSecurityPolicy::Shared)
        .unwrap_err();
    assert!(matches!(error, LockError::ParentDirComponent));
    assert!(disk.calls.is_empty());
}

#[test]
fn foreign_owners_are_refused_under_every_policy() {
    for policy in [PathSecurityPolicy::Private, PathSecurityPolicy::Shared] {
        let foreign_dir = EntryFacts {
            owner: 0,
            ..dir(0o700)
        };
        let mut disk1 = disk(Platform::Unix).with("/tmp", foreign_dir);
        assert!(matches!(
            disk1.open("/tmp/x.lock", policy),
            Err(LockError::DirectoryNotOwned)
        ));
        let foreign_file = EntryFacts {
            owner: 0,
            ..file(0o600)
        };
        let mut disk2 = disk(Platform::Unix)
            .with("/tmp", dir(0o700))
            .with("/tmp/x.lock", foreign_file);
        assert!(matches!(
            disk2.open("/tmp/x.lock", policy),
            Err(LockError::FileNotOwned)
        ));
    }
}

#[test]
fn only_directories_and_regular_files_will_do() {
    let mut file_as_parent = disk(Platform::Unix).with("/tmp", file(0o600));
    assert!(matches!(
        file_as_parent.open("/tmp/x.lock", PathSecurityPolicy::Private),
        Err(LockError::ParentNotDirectory)
    ));
    let mut dir_as_file = disk(Platform::Unix)
        .with("/tmp", dir(0o700))
        .with("/tmp/x.lock", dir(0o700));
    assert!(matches!(
        dir_as_file.open("/tmp/x.lock", PathSecurityPolicy::Private),
        Err(LockError::NotRegularFile)
    ));
}

#[test]
fn a_file_that_appears_meanwhile_is_opened_and_checked() {
    let mut good = disk(Platform::Unix).with("/tmp", dir(0o700));
    good.appears_meanwhile = Some(file(0o600));
    good.open("/tmp/x.lock", PathSecurityPolicy::Private).unwrap();
    assert_eq!(
        good.calls,
        vec![
            "inspect /tmp",
            "open /tmp/x.lock",
            "create /tmp/x.lock",
            "open /tmp/x.lock"
        ]
    );
    let mut bad = disk(Platform::Unix).with("/tmp", dir(0o700));
    bad.appears_meanwhile = Some(file(0o666));
    assert!(matches!(
        bad.open("/tmp/x.lock", PathSecurityPolicy::Private),
        Err(LockError::FileNotPrivate)
    ));
}

#[test]
fn other_failures_to_open_keep_their_cause() {
    let host = disk(Platform::Unix).host;
    let begun = open_lock_file(
        LockPath::from_text("x.lock"),
        PathSecurityPolicy::Private,
        host,
        false,
    );
    match begun {
        Ok(OpenStep::OpenFinal(open)) => {
            let error = open
                .resume(Err(failed(IoErrorKind::PermissionDenied, Some(13))))
                .unwrap_err();
            assert_eq!(error.report(Platform::Unix), "opening lock file x.lock: simulated failure");
        }
        _ => panic!("a bare name is opened at once"),
    }
}

#[test]
fn failures_to_inspect_are_reported() {
    let host = disk(Platform::Unix).host;
    let begun = open_lock_file(
        LockPath::from_text("/tmp/x.lock"),
        PathSecurityPolicy::Private,
        host,
        false,
    );
    match begun {
        Ok(OpenStep::InspectAncestor(walk)) => {
            let error = walk
                .resume(Err(failed(IoErrorKind::PermissionDenied, Some(13))))
                .unwrap_err();
            assert_eq!(
                error.report(Platform::Unix),
                "inspecting lock directory /tmp: simulated failure"
            );
        }
        _ => panic!("the directory is inspected first"),
    }
}

#[test]
fn windows_private_open_tightens_and_checks_lists() {
    let mut disk = disk(Platform::Windows).with("/tmp", dir(0));
    disk.open("/tmp/locks/x.lock", PathSecurityPolicy::Private)
        .unwrap();
    let directory = disk.find(&LockPath::from_text("/tmp/locks")).unwrap().clone();
    assert!(directory.protected);
    let lock = disk
        .find(&LockPath::from_text("/tmp/locks/x.lock"))
        .unwrap()
        .clone();
    assert!(lock.protected);
    assert_eq!(lock.sddl, format!("D:PAI(A;;FA;;;{SID})"));
    assert!(disk.calls.contains(&"protect /tmp/locks/x.lock".to_owned()));
}

#[test]
fn windows_private_open_refuses_a_broadly_writable_parent() {
    let mut disk =
        disk(Platform::Windows).with_list("/tmp", dir(0), "D:(A;;FA;;;WD)(A;;FA;;;BA)");
    assert!(matches!(
        disk.open("/tmp/x.lock", PathSecurityPolicy::Private),
        Err(LockError::DaclNotPrivate)
    ));
    assert!(disk.open("/tmp/x.lock", PathSecurityPolicy::Shared).is_ok());
}

#[test]
fn windows_reparse_points_are_refused_under_every_policy() {
    for policy in [PathSecurityPolicy::Private, PathSecurityPolicy::Shared] {
        let junction = EntryFacts {
            attributes: 0x410,
            ..dir(0)
        };
        let mut disk1 = disk(Platform::Windows).with("/tmp", junction);
        assert!(matches!(
            disk1.open("/tmp/x.lock", policy),
            Err(LockError::DirectoryIsReparsePoint)
        ));
        let reparse_file = EntryFacts {
            attributes: 0x400,
            ..file(0)
        };
        let mut disk2 = disk(Platform::Windows)
            .with("/tmp", dir(0))
            .with("/tmp/x.lock", reparse_file);
        assert!(matches!(
            disk2.open("/tmp/x.lock", policy),
            Err(LockError::FileIsReparsePoint)
        ));
    }
}

#[test]
fn a_list_that_cannot_be_read_is_a_refusal() {
    let host = disk(Platform::Windows).host;
    let begun = open_lock_file(
        LockPath::from_text("/tmp/x.lock"),
        PathSecurityPolicy::Private,
        host,
        false,
    );
    let walk = match begun {
        Ok(OpenStep::InspectAncestor(walk)) => walk,
        _ => panic!("the directory is inspected first"),
    };
    let check = match walk.resume(Ok(dir(0))) {
        Ok(OpenStep::CheckParent(check)) => check,
        _ => panic!("the directory is there"),
    };
    let list = match check.resume(Ok(dir(0))) {
        Ok(OpenStep::CheckParentDacl(list)) => list,
        _ => panic!("lists matter"),
    };
    let error = list
        .resume(Err(failed(IoErrorKind::Other, None)))
        .unwrap_err();
    assert_eq!(error.report(Platform::Unix), "simulated failure");
}

#[test]
fn other_platforms_make_directories_strictly() {
    let mut fresh = disk(Platform::Other).with("/tmp", dir(0));
    fresh
        .open("/tmp/locks/x.lock", PathSecurityPolicy::Private)
        .unwrap();
    let host = disk(Platform::Other).host;
    let begun = open_lock_file(
        LockPath::from_text("locks/x.lock"),
        PathSecurityPolicy::Private,
        host,
        false,
    );
    let walk = match begun {
        Ok(OpenStep::InspectAncestor(walk)) => walk,
        _ => panic!("the directory is inspected first"),
    };
    let creation = match walk.resume(Err(failed(IoErrorKind::NotFound, None))) {
        Ok(OpenStep::CreateDirectory(creation)) => creation,
        _ => panic!("the directory is missing"),
    };
    let error = creation
        .resume(Err(failed(IoErrorKind::AlreadyExists, None)))
        .unwrap_err();
    assert_eq!(
        error.report(Platform::Unix),
        "creating lock directory locks: simulated failure"
    );
}

#[test]
fn judgements_look_at_the_kind_before_the_owner() {
    let host = disk(Platform::Unix).host;
    let both = EntryFacts {
        owner: 0,
        ..link()
    };
    assert!(matches!(
        check_ancestor(Platform::Unix, &both),
        Err(LockError::DirectoryIsSymlink)
    ));
    assert!(matches!(
        validate_existing_lock_directory(&host, PathSecurityPolicy::Private, &both),
        Err(LockError::DirectoryIsSymlink)
    ));
    assert!(matches!(
        validate_opened_lock_file(&host, PathSecurityPolicy::Private, &both),
        Err(LockError::NotRegularFile)
    ));
    assert!(check_ancestor(Platform::Unix, &dir(0o777)).is_ok());
}

#[test]
fn hardening_concerns_real_unix_directories() {
    let parent = LockPath::from_text("/d");
    assert_eq!(
        harden_lock_root_permissions(Platform::Unix, &parent, &dir(0o40755)).unwrap(),
        Some(0o700)
    );
    assert_eq!(
        harden_lock_root_permissions(Platform::Unix, &parent, &dir(0o40700)).unwrap(),
        None
    );
    assert_eq!(
        harden_lock_root_permissions(Platform::Windows, &parent, &link()).unwrap(),
        None
    );
    assert_eq!(
        harden_lock_root_permissions(Platform::Unix, &parent, &link())
            .unwrap_err()
            .message(Platform::Unix),
        "lock directory /d is not a real directory"
    );
}

#[test]
fn a_list_that_did_not_take_is_reported_with_both_findings() {
    let host = disk(Platform::Windows).host;
    let begun = open_lock_file(
        LockPath::from_text("locks/x.lock"),
        PathSecurityPolicy::Private,
        host,
        false,
    );
    let walk = match begun {
        Ok(OpenStep::InspectAncestor(walk)) => walk,
        _ => panic!("the directory is inspected first"),
    };
    let creation = match walk.resume(Err(failed(IoErrorKind::NotFound, None))) {
        Ok(OpenStep::CreateDirectory(creation)) => creation,
        _ => panic!("the directory is missing"),
    };
    let apply = match creation.resume(Ok(())) {
        Ok(OpenStep::CreateDirectory(apply)) => apply,
        _ => panic!("the list is applied next"),
    };
    assert_eq!(apply.stage(), DirectoryStage::ApplyDacl);
    let check = match apply.resume(Ok(())) {
        Ok(OpenStep::VerifyDirectoryDacl(check)) => check,
        _ => panic!("the list is read back"),
    };
    let error = check
        .resume(Ok(DaclFacts {
            sddl: "D:P(A;;FA;;;SY)".to_owned(),
            canonical: user_private_sddl(SID),
            control: 0x9004,
        }))
        .unwrap_err();
    assert!(matches!(
        error,
        LockError::DaclNotProtected {
            descriptor_protected: true,
            exact_private_aces: false,
        }
    ));
}

#[test]
fn windows_private_open_uses_non_inheritable_handle() {
    let mut disk = disk(Platform::Windows).with("/tmp", dir(0));
    let identity = disk
        .open("/tmp/install.lock", PathSecurityPolicy::Private)
        .unwrap();
    assert_eq!(identity.display(Platform::Windows), "/tmp/install.lock");
    assert_eq!(
        disk.calls,
        vec![
            "inspect /tmp",
            "open /tmp/install.lock",
            "create /tmp/install.lock",
            "seal /tmp/install.lock",
            "protect /tmp/install.lock",
        ]
    );
    disk.calls.clear();
    disk.open("/tmp/install.lock", PathSecurityPolicy::Shared)
        .unwrap();
    assert!(disk.calls.contains(&"seal /tmp/install.lock".to_owned()));
}

#[test]
fn a_handle_that_cannot_be_sealed_is_not_used() {
    let mut existing = disk(Platform::Windows)
        .with("/tmp", dir(0))
        .with("/tmp/x.lock", file(0));
    existing.unsealable = Some(IoErrorKind::Other);
    let error = existing
        .open("/tmp/x.lock", PathSecurityPolicy::Private)
        .unwrap_err();
    assert_eq!(
        error.report(Platform::Windows),
        "opening lock file /tmp/x.lock: simulated failure"
    );
}

#[test]
fn only_windows_handles_are_sealed_after_opening() {
    for platform in [Platform::Unix, Platform::Other] {
        let mut disk = disk(platform).with("/tmp", dir(0o700));
        disk.open("/tmp/x.lock", PathSecurityPolicy::Private)
            .unwrap();
        assert!(!disk.calls.iter().any(|call| call.starts_with("seal")));
    }
}

#[test]
fn the_directory_is_that_of_the_path() {
    let mut disk = disk(Platform::Unix)
        .with("/tmp", dir(0o700))
        .with("/tmp/a", dir(0o770));
    for path in ["/tmp/a/x.lock", "/tmp/a//x.lock", "/tmp/a/./x.lock", "/tmp/a/x.lock/."] {
        assert!(
            matches!(
                disk.open(path, PathSecurityPolicy::Private),
                Err(LockError::DirectoryWritable)
            ),
            "{path}"
        );
    }
}

#[test]
fn a_rendezvous_knows_what_it_was_opened_for() {
    let mut disk = disk(Platform::Unix).with("/tmp", dir(0o700));
    let request = LockRequest::exclusive(LockPath::from_text("/tmp/x.lock"));
    disk.open_for_request(&request).unwrap();
    let host = disk.host;
    let mut step = open_request(&request, host).unwrap();
    let opened = loop {
        step = match step {
            OpenStep::InspectAncestor(walk) => walk.resume(Ok(dir(0o700))).unwrap(),
            OpenStep::CheckParent(check) => check.resume(Ok(dir(0o700))).unwrap(),
            OpenStep::OpenFinal(open) => open.resume(Ok(())).unwrap(),
            OpenStep::CheckFile(check) => check.resume(Ok(file(0o600))).unwrap(),
            OpenStep::Canonicalize(resolve) => {
                resolve.resume(Ok(LockPath::from_text("/real/x.lock"))).unwrap()
            }
            OpenStep::Opened(opened) => break opened,
            _ => panic!("nothing is missing"),
        };
    };
    assert!(opened.is_for(&request, Platform::Unix));
    assert!(!opened.is_for(&request, Platform::Windows));
    assert!(!opened.is_for(&request.clone().shared_path(), Platform::Unix));
    let other = request.at_identity(LockPath::from_text("/tmp/y.lock"));
    assert!(!opened.is_for(&other, Platform::Unix));
    assert_eq!(opened.path().display(Platform::Unix), "/tmp/x.lock");
    assert_eq!(
        opened.canonical_lock_path().display(Platform::Unix),
        "/real/x.lock"
    );
}
